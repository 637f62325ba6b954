//! The grid of cards: how many columns fit, how many rows the cards take,
//! which cards each row holds, and the cell of the screen that each card
//! is drawn in.

use vstd::prelude::*;
use ratatui::layout::{Constraint, Layout, Rect};

verus! {

/// The width of a card, in cells.
pub const CARD_WIDTH: u16 = 28;

/// The height of a card, in cells.
pub const CARD_HEIGHT: u16 = 10;

/// The gap between neighbouring cards, in cells.
pub const SPACING: u16 = 0;

/// A rectangle of the screen: its top left corner and its size, in cells.
pub struct Area {
    pub x: u16,
    pub y: u16,
    pub width: u16,
    pub height: u16,
}

impl View for Area {
    type V = (u16, u16, u16, u16);

    open spec fn view(&self) -> (u16, u16, u16, u16) {
        (self.x, self.y, self.width, self.height)
    }
}

/// The rectangles that ratatui's `Layout::vertical`, with `count` constraints
/// `Length(length)` and the given spacing, splits `area` into.
pub uninterp spec fn vertical_split(area: (u16, u16, u16, u16), count: nat, length: u16, spacing: u16) -> Seq<(u16, u16, u16, u16)>;

/// The rectangles that ratatui's `Layout::horizontal`, with `count` constraints
/// `Length(length)` and the given spacing, splits `area` into.
pub uninterp spec fn horizontal_split(area: (u16, u16, u16, u16), count: nat, length: u16, spacing: u16) -> Seq<(u16, u16, u16, u16)>;

/// Calls `ratatui::layout::Layout::vertical` with `count` constraints
/// `Length(length)`, then `spacing` and `split` on `area`. The contract
/// claims one rectangle per constraint, which the source gives (a segment
/// per constraint, turned into one `Rect` each), and names the rectangles
/// by `vertical_split`, a function of the arguments (the solver and its
/// cache are keyed on the layout and the area alone). The solver's answer
/// is unwrapped in the source; the only constraints it adds at required
/// strength keep the edges in order inside the area, which always has a
/// solution.
#[verifier::external_body]
fn split_rows(area: &Area, count: usize, length: u16, spacing: u16) -> (parts: Vec<Area>)
    ensures
        parts@.len() == count,
        parts@.map_values(|a: Area| a@) == vertical_split(area@, count as nat, length, spacing),
{
    let rect = Rect { x: area.x, y: area.y, width: area.width, height: area.height };
    let rects = Layout::vertical(vec![Constraint::Length(length); count]).spacing(spacing).split(rect);
    rects.iter().map(|r| Area { x: r.x, y: r.y, width: r.width, height: r.height }).collect()
}

/// Calls `ratatui::layout::Layout::horizontal` with `count` constraints
/// `Length(length)`, then `spacing` and `split` on `area`. The contract
/// claims one rectangle per constraint and names the rectangles by
/// `horizontal_split`, as for `split_rows`.
#[verifier::external_body]
fn split_columns(area: &Area, count: usize, length: u16, spacing: u16) -> (parts: Vec<Area>)
    ensures
        parts@.len() == count,
        parts@.map_values(|a: Area| a@) == horizontal_split(area@, count as nat, length, spacing),
{
    let rect = Rect { x: area.x, y: area.y, width: area.width, height: area.height };
    let rects = Layout::horizontal(vec![Constraint::Length(length); count]).spacing(spacing).split(rect);
    rects.iter().map(|r| Area { x: r.x, y: r.y, width: r.width, height: r.height }).collect()
}

/// The columns of cards that fit in `width` cells: at least one.
pub open spec fn grid_columns(width: int) -> int {
    if width < CARD_WIDTH {
        1
    } else {
        width / (CARD_WIDTH as int)
    }
}

/// The rows that `n` cards take in `cols` columns.
pub open spec fn grid_rows(n: int, cols: int) -> int {
    (n + (cols - 1)) / cols
}

/// The columns of cards that fit in `width` cells.
pub fn columns_for_width(width: u16) -> (cols: usize)
    ensures
        cols == grid_columns(width as int),
        1 <= cols <= 2341,
{
    if width < CARD_WIDTH {
        1
    } else {
        (width / CARD_WIDTH) as usize
    }
}

/// The rows that `n` cards take in `cols` columns.
pub fn rows_for(n: usize, cols: usize) -> (rows: usize)
    requires
        cols >= 1,
        n + cols - 1 <= usize::MAX,
    ensures
        rows == grid_rows(n as int, cols as int),
{
    (n + (cols - 1)) / cols
}

/// The positions of the cards of row `row`: from `row * cols` up to the next
/// row or the last card.
pub open spec fn row_start(row: int, cols: int) -> int {
    row * cols
}

pub open spec fn row_end(row: int, cols: int, n: int) -> int {
    if row * cols + cols < n {
        row * cols + cols
    } else {
        n
    }
}

/// The positions of the cards of a row: the first, and one past the last.
pub fn row_span(row: usize, cols: usize, n: usize) -> (span: (usize, usize))
    requires
        row * cols + cols <= usize::MAX,
    ensures
        span.0 == row_start(row as int, cols as int),
        span.1 == row_end(row as int, cols as int, n as int),
{
    let start: usize = row * cols;
    let end: usize = if start + cols < n {
        start + cols
    } else {
        n
    };
    (start, end)
}

/// The cells of row `r` of the grid of `n` cards in `area`: the row's
/// rectangle, cut into one cell per card of the row, each with the card's
/// position.
pub open spec fn row_cells(area: (u16, u16, u16, u16), n: int, r: int) -> Seq<(int, (u16, u16, u16, u16))> {
    let cols = grid_columns(area.2 as int);
    let rows = grid_rows(n, cols);
    let row_area = vertical_split(area, rows as nat, CARD_HEIGHT, SPACING)[r];
    let start = row_start(r, cols);
    let count = row_end(r, cols, n) - start;
    Seq::new(count as nat, |j: int| (start + j, horizontal_split(row_area, count as nat, CARD_WIDTH, SPACING)[j]))
}

/// The cells of the grid of `n` cards in `area`, row by row: nothing when
/// there is no card.
pub open spec fn grid_cells(area: (u16, u16, u16, u16), n: int) -> Seq<(int, (u16, u16, u16, u16))> {
    if n <= 0 {
        Seq::empty()
    } else {
        let rows = grid_rows(n, grid_columns(area.2 as int));
        Seq::new(rows as nat, |r: int| row_cells(area, n, r)).flatten()
    }
}

/// A list of cells taken as positions and rectangles.
pub open spec fn cells_view(cells: Seq<(usize, Area)>) -> Seq<(int, (u16, u16, u16, u16))> {
    cells.map_values(|c: (usize, Area)| (c.0 as int, c.1@))
}

/// The cell of each of `n` cards in `area`: the area is split into the rows
/// that the cards take, each `CARD_HEIGHT` high, and each row into one cell
/// per card of the row, each `CARD_WIDTH` wide. Every card gets a cell, once,
/// and the cells come in the cards' order.
pub fn card_cells(n: usize, area: &Area) -> (cells: Vec<(usize, Area)>)
    requires
        n + grid_columns(area.width as int) - 1 <= usize::MAX,
    ensures
        cells_view(cells@) == grid_cells(area@, n as int),
        cells@.len() == n,
        forall|k: int| 0 <= k < n ==> cells@[k].0 == k,
{
    let mut cells: Vec<(usize, Area)> = Vec::new();
    if n == 0 {
        proof {
            assert(cells_view(cells@) =~= grid_cells(area@, n as int));
        }
        return cells;
    }
    let cols = columns_for_width(area.width);
    let rows = rows_for(n, cols);
    let row_areas = split_rows(area, rows, CARD_HEIGHT, SPACING);
    proof {
        assert(rows * cols <= n + cols - 1) by (nonlinear_arith)
            requires
                cols >= 1,
                rows as int == (n as int + cols as int - 1) / (cols as int),
                n + cols - 1 >= 0,
        ;
        assert(rows * cols >= n) by (nonlinear_arith)
            requires
                cols >= 1,
                rows as int == (n as int + cols as int - 1) / (cols as int),
                n >= 1,
        ;
        assert(Seq::new(0, |i: int| row_cells(area@, n as int, i)) =~= Seq::<Seq<(int, (u16, u16, u16, u16))>>::empty());
        assert(cells_view(cells@) =~= Seq::new(0, |i: int| row_cells(area@, n as int, i)).flatten());
    }
    let mut r: usize = 0;
    while r < rows
        invariant
            cols == grid_columns(area.width as int),
            1 <= cols,
            rows == grid_rows(n as int, cols as int),
            rows * cols <= n + cols - 1,
            rows * cols >= n,
            n + cols - 1 <= usize::MAX,
            n >= 1,
            row_areas@.len() == rows,
            row_areas@.map_values(|a: Area| a@) == vertical_split(area@, rows as nat, CARD_HEIGHT, SPACING),
            0 <= r <= rows,
            cells_view(cells@) == Seq::new(r as nat, |i: int| row_cells(area@, n as int, i)).flatten(),
            cells@.len() == (if r * cols < n { r * cols } else { n as int }),
            forall|k: int| 0 <= k < cells@.len() ==> cells@[k].0 == k,
        decreases rows - r,
    {
        proof {
            assert(r * cols + cols <= rows * cols) by (nonlinear_arith)
                requires
                    r < rows,
                    cols >= 1,
            ;
            assert(r * cols < n) by (nonlinear_arith)
                requires
                    r < rows,
                    cols >= 1,
                    rows * cols <= n + cols - 1,
            ;
        }
        let (start, end) = row_span(r, cols, n);
        let count: usize = end - start;
        let row_area = &row_areas[r];
        assert(row_area@ == vertical_split(area@, rows as nat, CARD_HEIGHT, SPACING)[r as int]) by {
            assert(row_areas@.map_values(|a: Area| a@)[r as int] == row_areas@[r as int]@);
        }
        let col_areas = split_columns(row_area, count, CARD_WIDTH, SPACING);
        let ghost before = cells_view(cells@);
        let ghost row = row_cells(area@, n as int, r as int);
        assert(row.len() == count);
        assert forall|i: int| 0 <= i < count implies (start + i, #[trigger] col_areas@[i]@) == row[i] by {
            assert(col_areas@.map_values(|a: Area| a@)[i] == col_areas@[i]@);
        }
        let mut j: usize = 0;
        while j < count
            invariant
                count == end - start,
                start == r * cols,
                end <= n,
                col_areas@.len() == count,
                forall|i: int| 0 <= i < count ==> (start + i, #[trigger] col_areas@[i]@) == row[i],
                row.len() == count,
                before.len() == start,
                0 <= j <= count,
                cells_view(cells@) == before + row.take(j as int),
                cells@.len() == start + j,
                forall|k: int| 0 <= k < cells@.len() ==> cells@[k].0 == k,
            decreases count - j,
        {
            let c = &col_areas[j];
            let cell = Area { x: c.x, y: c.y, width: c.width, height: c.height };
            let ghost prev = cells@;
            cells.push((start + j, cell));
            proof {
                assert(row.take(j as int + 1) =~= row.take(j as int).push(row[j as int]));
                assert(cells_view(cells@) =~= cells_view(prev).push(((start + j) as int, col_areas@[j as int]@)));
            }
            j = j + 1;
        }
        proof {
            assert(Seq::new((r + 1) as nat, |i: int| row_cells(area@, n as int, i)) =~= Seq::new(r as nat, |i: int| row_cells(area@, n as int, i)).push(row_cells(area@, n as int, r as int)));
            Seq::new(r as nat, |i: int| row_cells(area@, n as int, i)).lemma_flatten_push(row_cells(area@, n as int, r as int));
            assert(row.take(count as int) =~= row);
            assert((r + 1) * cols == r * cols + cols) by (nonlinear_arith);
        }
        r = r + 1;
    }
    proof {
        assert(cells_view(cells@) =~= grid_cells(area@, n as int));
    }
    cells
}

/// Every card has its place: card `i` of `n` lies in row `i / cols`, which
/// is one of the rows that the cards take, between that row's first card and
/// one past its last.
pub proof fn lemma_grid_places_every_card(n: int, cols: int, i: int)
    requires
        cols >= 1,
        0 <= i < n,
    ensures
        0 <= i / cols < grid_rows(n, cols),
        row_start(i / cols, cols) <= i < row_end(i / cols, cols, n),
{
    let r = i / cols;
    assert(r * cols <= i < r * cols + cols) by (nonlinear_arith)
        requires
            cols >= 1,
            i >= 0,
            r == i / cols,
    ;
    assert(r < (n + cols - 1) / cols) by (nonlinear_arith)
        requires
            cols >= 1,
            0 <= i < n,
            r == i / cols,
            r * cols <= i,
    ;
    assert(0 <= r) by (nonlinear_arith)
        requires
            cols >= 1,
            i >= 0,
            r == i / cols,
    ;
}

/// Rows do not overlap: a card lies in one row only.
pub proof fn lemma_rows_disjoint(n: int, cols: int, row: int, other: int, i: int)
    requires
        cols >= 1,
        0 <= row,
        0 <= other,
        row != other,
        row_start(row, cols) <= i < row_end(row, cols, n),
    ensures
        !(row_start(other, cols) <= i < row_end(other, cols, n)),
{
    if other < row {
        assert(other * cols + cols <= row * cols) by (nonlinear_arith)
            requires
                other < row,
                cols >= 1,
        ;
    } else {
        assert(row * cols + cols <= other * cols) by (nonlinear_arith)
            requires
                row < other,
                cols >= 1,
        ;
    }
}

} // verus!
