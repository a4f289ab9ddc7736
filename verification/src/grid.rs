//! Layout of cells in aligned columns, by the `term_grid` crate.

use vstd::prelude::*;
use crate::display::{Cell, cell_view, cells_view};

verus! {

#[verifier::external_type_specification]
#[verifier::external_body]
pub struct ExGrid(term_grid::Grid);

/// The cells added to a grid, in order: text and width of each.
pub uninterp spec fn grid_cells(g: term_grid::Grid) -> Seq<(Seq<char>, usize)>;

/// The options a grid was made with: the spaces between columns, and whether
/// cells run left to right (else top to bottom).
pub uninterp spec fn grid_layout(g: term_grid::Grid) -> (usize, bool);

/// The text `term_grid` lays out for `cells` in `columns` columns.
pub uninterp spec fn term_grid_columns(
    cells: Seq<(Seq<char>, usize)>,
    spaces: usize,
    left_to_right: bool,
    columns: usize,
) -> Seq<char>;

/// The text `term_grid` lays out for `cells` within `width` columns, or
/// `None` where it finds no arrangement.
pub uninterp spec fn term_grid_width(
    cells: Seq<(Seq<char>, usize)>,
    spaces: usize,
    left_to_right: bool,
    width: usize,
) -> Option<Seq<char>>;

/// The direction in which cells fill a grid.
#[derive(Clone, Copy, Debug, PartialEq, Eq, Structural)]
pub enum GridDirection {
    LeftToRight,
    TopToBottom,
}

/// The sum of the widths of `cells`.
pub open spec fn widths_sum(cells: Seq<(Seq<char>, usize)>) -> int
    decreases cells.len(),
{
    if cells.len() == 0 {
        0
    } else {
        widths_sum(cells.drop_last()) + cells.last().1
    }
}

/// Arithmetic bounds under which `term_grid` lays out `cells` without
/// overflowing `usize`.
pub open spec fn grid_bounds(cells: Seq<(Seq<char>, usize)>, spaces: usize) -> bool {
    widths_sum(cells) + spaces * (cells.len() + 1) + 2 * cells.len() <= usize::MAX
}

/// Calls `term_grid::Grid::new`: an empty grid with `spaces` spaces between
/// columns, filled in `direction`.
#[verifier::external_body]
pub(crate) fn grid_new(spaces: usize, direction: GridDirection) -> (g: term_grid::Grid)
    ensures
        grid_cells(g) == Seq::<(Seq<char>, usize)>::empty(),
        grid_layout(g) == (spaces, direction == GridDirection::LeftToRight),
{
    let direction = match direction {
        GridDirection::LeftToRight => term_grid::Direction::LeftToRight,
        GridDirection::TopToBottom => term_grid::Direction::TopToBottom,
    };
    term_grid::Grid::new(term_grid::GridOptions { filling: term_grid::Filling::Spaces(spaces), direction })
}

/// Calls `term_grid::Grid::add`: appends `cell` to the grid's cells.
#[verifier::external_body]
pub(crate) fn grid_add(g: &mut term_grid::Grid, cell: Cell)
    ensures
        grid_cells(*final(g)) == grid_cells(*old(g)).push(cell_view(cell)),
        grid_layout(*final(g)) == grid_layout(*old(g)),
{
    g.add(term_grid::Cell { contents: cell.contents, width: cell.width })
}

/// Calls `term_grid::Grid::fit_into_columns` and writes the result out; the
/// text is named, not stated. `columns` must be positive (the crate divides
/// by it).
#[verifier::external_body]
pub(crate) fn grid_fit_into_columns(g: &term_grid::Grid, columns: usize) -> (s: String)
    requires
        columns > 0,
        grid_bounds(grid_cells(*g), grid_layout(*g).0),
        grid_cells(*g).len() + columns <= usize::MAX,
    ensures
        s@ == term_grid_columns(grid_cells(*g), grid_layout(*g).0, grid_layout(*g).1, columns),
{
    g.fit_into_columns(columns).to_string()
}

/// Calls `term_grid::Grid::fit_into_width` and writes the result out, if
/// any; the text, and when there is none, are named, not stated.
#[verifier::external_body]
pub(crate) fn grid_fit_into_width(g: &term_grid::Grid, width: usize) -> (s: Option<String>)
    requires
        grid_bounds(grid_cells(*g), grid_layout(*g).0),
    ensures
        match s {
            Some(t) => term_grid_width(grid_cells(*g), grid_layout(*g).0, grid_layout(*g).1, width)
                == Some(t@),
            None => term_grid_width(grid_cells(*g), grid_layout(*g).0, grid_layout(*g).1, width)
                is None,
        },
{
    g.fit_into_width(width).map(|d| d.to_string())
}


/// A grid holding copies of `cells`, in order.
pub fn grid_of(cells: &Vec<Cell>, spaces: usize, direction: GridDirection) -> (g: term_grid::Grid)
    ensures
        grid_cells(g) == cells_view(cells@),
        grid_layout(g) == (spaces, direction == GridDirection::LeftToRight),
{
    let mut g = grid_new(spaces, direction);
    let mut k: usize = 0;
    while k < cells.len()
        invariant
            k <= cells@.len(),
            grid_cells(g) == cells_view(cells@).take(k as int),
            grid_layout(g) == (spaces, direction == GridDirection::LeftToRight),
        decreases cells@.len() - k,
    {
        let c = Cell { contents: cells[k].contents.clone(), width: cells[k].width };
        grid_add(&mut g, c);
        assert(cells_view(cells@).take(k + 1) =~= cells_view(cells@).take(k as int).push(
            cell_view(cells@[k as int]),
        ));
        k = k + 1;
    }
    assert(cells_view(cells@).take(cells@.len() as int) =~= cells_view(cells@));
    g
}

/// Whether `cells` are within `grid_bounds` for `spaces`.
pub fn within_grid_bounds(cells: &Vec<Cell>, spaces: usize) -> (b: bool)
    ensures
        b == grid_bounds(cells_view(cells@), spaces),
{
    let ghost cv = cells_view(cells@);
    let mut total: usize = 0;
    let mut k: usize = 0;
    while k < cells.len()
        invariant
            k <= cells@.len(),
            cv == cells_view(cells@),
            total == widths_sum(cv.take(k as int)),
        decreases cells@.len() - k,
    {
        assert(cv.take(k + 1).drop_last() =~= cv.take(k as int));
        if cells[k].width > usize::MAX - total {
            proof {
                lemma_widths_sum_prefix(cv, k + 1);
            }
            return false;
        }
        total = total + cells[k].width;
        k = k + 1;
    }
    assert(cv.take(cells@.len() as int) =~= cv);
    let n = cells.len();
    if n > (usize::MAX - total) / 2 {
        return false;
    }
    let rest = usize::MAX - total - 2 * n;
    if n >= usize::MAX || spaces > 0 && n + 1 > rest / spaces {
        proof {
            if spaces > 0 && n < usize::MAX {
                assert((n + 1) * spaces > rest) by (nonlinear_arith)
                    requires
                        n + 1 > rest / spaces,
                        spaces > 0,
                ;
            }
        }
        return false;
    }
    proof {
        if spaces > 0 {
            assert((n + 1) * spaces <= rest) by (nonlinear_arith)
                requires
                    n + 1 <= rest / spaces,
                    spaces > 0,
            ;
        }
    }
    true
}

/// A prefix of the cells never sums to more than all of them.
proof fn lemma_widths_sum_prefix(cells: Seq<(Seq<char>, usize)>, k: int)
    requires
        0 <= k <= cells.len(),
    ensures
        widths_sum(cells.take(k)) <= widths_sum(cells),
    decreases cells.len() - k,
{
    if k < cells.len() {
        lemma_widths_sum_prefix(cells, k + 1);
        assert(cells.take(k + 1).drop_last() =~= cells.take(k));
    } else {
        assert(cells.take(k) =~= cells);
    }
}

} // verus!
