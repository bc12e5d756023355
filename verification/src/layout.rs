//! Responsive grids and centred boxes.
//!
//! A grid chooses its number of columns from the width it is given and its
//! number of rows from the number of items, cuts the area evenly into bands
//! and each band evenly into slices, and hands out one cell per item.

use crate::geometry::Rect;
use crate::partition::{
    evenly_cut, extent_of, lemma_even_cut_of_one, lemma_even_cut_uses_up_area,
    lemma_even_cut_within, piece_of, solve, split_evenly, total_length, Constraint, Direction,
};
use vstd::prelude::*;

verus! {

/// The largest number of rows a grid is ever given.
pub const MAX_ROWS: usize = 1024;

/// The smallest number of groups of `d` that hold `n` items.
pub open spec fn ceil_div(n: int, d: int) -> int {
    (n + d - 1) / d
}

/// The smaller of two numbers.
pub open spec fn least(a: int, b: int) -> int {
    if a <= b {
        a
    } else {
        b
    }
}

/// The rows of a grid as sequences of cells.
pub open spec fn grid_view(rows: Seq<Vec<Rect>>) -> Seq<Seq<Rect>> {
    Seq::new(rows.len(), |r: int| rows[r]@)
}

/// The first `count` cells of a grid with `columns` columns, row by row from
/// the top and from left to right within a row.
pub open spec fn row_major(rows: Seq<Seq<Rect>>, columns: int, count: nat) -> Seq<Rect> {
    Seq::new(count, |i: int| rows[i / columns][i % columns])
}

/// `bands` and `slices` are an even grid of `rows` by `columns` over `area`:
/// the bands cut the area evenly from top to bottom, and row `r` of `slices`
/// cuts band `r` evenly from left to right.
pub open spec fn even_grid(
    area: Rect,
    rows: int,
    columns: int,
    bands: Seq<Rect>,
    slices: Seq<Seq<Rect>>,
) -> bool {
    &&& 0 <= rows
    &&& 0 <= columns
    &&& evenly_cut(area, Direction::Vertical, rows as nat, bands)
    &&& slices.len() == rows
    &&& forall|r: int|
        0 <= r < rows ==> evenly_cut(
            bands[r],
            Direction::Horizontal,
            columns as nat,
            #[trigger] slices[r],
        )
}

/// Hands out the cells of a grid, one per item: row by row from the top, from
/// left to right within a row, until `item_count` cells are out or the grid is
/// used up. Of each row only the first `columns` cells count.
pub fn arrange(rows: &Vec<Vec<Rect>>, columns: usize, item_count: usize) -> (cells: Vec<Rect>)
    requires
        forall|r: int| 0 <= r < rows.len() ==> (#[trigger] rows[r]).len() >= columns,
    ensures
        cells@.len() == least(item_count as int, rows.len() * columns),
        cells@ == row_major(grid_view(rows@), columns as int, cells@.len()),
{
    let ghost grid = grid_view(rows@);
    let mut cells: Vec<Rect> = Vec::new();
    let mut r: usize = 0;
    while r < rows.len() && cells.len() < item_count
        invariant
            r <= rows.len(),
            grid == grid_view(rows@),
            forall|k: int| 0 <= k < rows.len() ==> (#[trigger] rows[k]).len() >= columns,
            cells@.len() == least(item_count as int, r * columns),
            forall|i: int|
                0 <= i < cells@.len() ==> cells@[i] == grid[i / (columns as int)][i % (
                columns as int)],
        decreases rows.len() - r,
    {
        let row = &rows[r];
        let mut c: usize = 0;
        while c < columns && cells.len() < item_count
            invariant
                r < rows.len(),
                c <= columns,
                row@ == rows[r as int]@,
                row.len() >= columns,
                grid == grid_view(rows@),
                cells@.len() == least(item_count as int, r * columns + c),
                forall|i: int|
                    0 <= i < cells@.len() ==> cells@[i] == grid[i / (columns as int)][i % (
                    columns as int)],
            decreases columns - c,
        {
            proof {
                let i = cells@.len() as int;
                assert(i == r * columns + c);
                vstd::arithmetic::div_mod::lemma_fundamental_div_mod_converse(
                    i,
                    columns as int,
                    r as int,
                    c as int,
                );
                assert(grid[r as int] == rows[r as int]@);
            }
            cells.push(row[c]);
            c += 1;
        }
        proof {
            assert((r + 1) * columns == r * columns + columns) by (nonlinear_arith);
        }
        r += 1;
    }
    proof {
        assert(r * columns <= rows.len() * columns) by (nonlinear_arith)
            requires
                r <= rows.len(),
        ;
        assert(cells@ =~= row_major(grid, columns as int, cells@.len()));
    }
    cells
}

/// A grid that chooses its number of columns from the width it is given.
#[derive(Clone, Copy, Debug)]
pub struct ResponsiveGrid {
    /// The least width a column should have.
    pub min_column_width: u16,
    /// The largest number of columns.
    pub max_columns: u16,
}

impl ResponsiveGrid {
    /// Both settings are positive.
    pub open spec fn well_formed(&self) -> bool {
        self.min_column_width >= 1 && self.max_columns >= 1
    }

    /// The number of columns for an area of the given width: as many columns
    /// of the least width as fit, but at least one and at most `max_columns`.
    pub open spec fn columns(&self, width: u16) -> int {
        let fit = width as int / self.min_column_width as int;
        if fit < 1 {
            1
        } else if fit > self.max_columns {
            self.max_columns as int
        } else {
            fit
        }
    }

    /// The number of rows for `item_count` items in an area of the given
    /// width: enough rows to hold all items, but at most `MAX_ROWS`.
    pub open spec fn rows(&self, width: u16, item_count: int) -> int {
        let needed = ceil_div(item_count, self.columns(width));
        if needed > MAX_ROWS {
            MAX_ROWS as int
        } else {
            needed
        }
    }

    /// The number of cells handed out for `item_count` items: one per item,
    /// but no more than fill `MAX_ROWS` rows.
    pub open spec fn cell_count(&self, width: u16, item_count: int) -> int {
        least(item_count, MAX_ROWS * self.columns(width))
    }

    /// `cells` is a possible outcome of splitting `area` for `item_count`
    /// items: the first cells, row by row, of an even grid over the area.
    pub open spec fn splits(&self, area: Rect, item_count: int, cells: Seq<Rect>) -> bool {
        &&& cells.len() == self.cell_count(area.width, item_count)
        &&& exists|bands: Seq<Rect>, slices: Seq<Seq<Rect>>|
            #[trigger] even_grid(
                area,
                self.rows(area.width, item_count),
                self.columns(area.width),
                bands,
                slices,
            ) && cells == row_major(slices, self.columns(area.width), cells.len())
    }

    /// A grid with columns at least 30 cells wide, four at most.
    pub fn new() -> (grid: Self)
        ensures
            grid.min_column_width == 30,
            grid.max_columns == 4,
            grid.well_formed(),
    {
        ResponsiveGrid { min_column_width: 30, max_columns: 4 }
    }

    /// A grid with the given settings.
    pub fn with_settings(min_column_width: u16, max_columns: u16) -> (grid: Self)
        ensures
            grid.min_column_width == min_column_width,
            grid.max_columns == max_columns,
            grid.well_formed() <==> (min_column_width >= 1 && max_columns >= 1),
    {
        ResponsiveGrid { min_column_width, max_columns }
    }

    /// The number of columns for an area of the given width.
    pub fn calculate_columns(&self, width: u16) -> (columns: u16)
        requires
            self.well_formed(),
        ensures
            columns == self.columns(width),
            1 <= columns <= self.max_columns,
    {
        if width == 0 {
            1
        } else {
            let fit: u16 = width / self.min_column_width;
            if fit < 1 {
                1
            } else if fit > self.max_columns {
                self.max_columns
            } else {
                fit
            }
        }
    }

    /// The number of rows for `item_count` items in an area of the given width.
    pub fn row_count(&self, width: u16, item_count: usize) -> (rows: usize)
        requires
            self.well_formed(),
        ensures
            rows == self.rows(width, item_count as int),
            rows <= MAX_ROWS,
            item_count == 0 <==> rows == 0,
    {
        let columns: usize = self.calculate_columns(width) as usize;
        if item_count == 0 {
            proof {
                vstd::arithmetic::div_mod::lemma_basic_div(columns - 1, columns as int);
            }
            0
        } else {
            let needed: usize = (item_count - 1) / columns + 1;
            proof {
                vstd::arithmetic::div_mod::lemma_div_plus_one(item_count - 1, columns as int);
                assert(ceil_div(item_count as int, columns as int) == needed);
            }
            if needed > MAX_ROWS {
                MAX_ROWS
            } else {
                needed
            }
        }
    }

    /// Splits `area` into a grid and hands out one cell per item, row by row
    /// from the top and from left to right within a row.
    ///
    /// The grid has `columns(area.width)` columns and `rows(..)` rows. Its
    /// bands share the height of the area evenly and its slices the width.
    /// Cells of the last row that no item needs are left out.
    pub fn split(&self, area: Rect, item_count: usize) -> (cells: Vec<Rect>)
        requires
            self.well_formed(),
        ensures
            self.splits(area, item_count as int, cells@),
            forall|i: int| 0 <= i < cells@.len() ==> (#[trigger] cells@[i]).within(area),
            area.height == 0 ==> forall|i: int|
                0 <= i < cells@.len() ==> (#[trigger] cells@[i]).height == 0,
            area.width == 0 ==> forall|i: int|
                0 <= i < cells@.len() ==> (#[trigger] cells@[i]).width == 0,
    {
        let columns: u16 = self.calculate_columns(area.width);
        let rows: usize = self.row_count(area.width, item_count);
        if item_count == 0 {
            let cells: Vec<Rect> = Vec::new();
            proof {
                let bands = Seq::<Rect>::empty();
                let slices = Seq::<Seq<Rect>>::empty();
                assert(even_grid(area, rows as int, columns as int, bands, slices));
                assert(cells@ =~= row_major(slices, columns as int, 0));
            }
            return cells;
        }
        let bands = split_evenly(area, Direction::Vertical, rows as u32);
        let mut slices: Vec<Vec<Rect>> = Vec::new();
        let mut r: usize = 0;
        while r < rows
            invariant
                r <= rows,
                bands@.len() == rows,
                slices@.len() == r,
                forall|k: int|
                    0 <= k < r ==> evenly_cut(
                        bands@[k],
                        Direction::Horizontal,
                        columns as nat,
                        (#[trigger] slices@[k])@,
                    ),
            decreases rows - r,
        {
            let row = split_evenly(bands[r], Direction::Horizontal, columns as u32);
            slices.push(row);
            r += 1;
        }
        let cells = arrange(&slices, columns as usize, item_count);
        proof {
            lemma_grid_holds_cell_count(*self, area.width, item_count as int);
            let grid = grid_view(slices@);
            assert(even_grid(area, rows as int, columns as int, bands@, grid));
            assert forall|i: int| 0 <= i < cells@.len() implies (#[trigger] cells@[i]).within(area)
                && (area.height == 0 ==> cells@[i].height == 0) && (area.width == 0
                ==> cells@[i].width == 0) by {
                let c = columns as int;
                lemma_row_and_column(i, rows as int, c);
                lemma_grid_cells_within(area, rows as int, c, bands@, grid, i / c, i % c);
            }
        }
        cells
    }
}

impl Default for ResponsiveGrid {
    fn default() -> (grid: Self)
        ensures
            grid.min_column_width == 30,
            grid.max_columns == 4,
    {
        ResponsiveGrid::new()
    }
}

/// The row and the column of the `i`-th cell of a grid.
pub proof fn lemma_row_and_column(i: int, rows: int, columns: int)
    requires
        0 <= i < rows * columns,
        0 < columns,
    ensures
        0 <= i / columns < rows,
        0 <= i % columns < columns,
{
    vstd::arithmetic::div_mod::lemma_fundamental_div_mod(i, columns);
    vstd::arithmetic::div_mod::lemma_mod_bound(i, columns);
    assert(i / columns < rows) by (nonlinear_arith)
        requires
            0 <= i < rows * columns,
            columns > 0,
            i == columns * (i / columns) + i % columns,
            0 <= i % columns < columns,
    ;
    assert(0 <= i / columns) by (nonlinear_arith)
        requires
            0 <= i,
            columns > 0,
    ;
}

/// Every cell of an even grid over `area` lies within `area`, in the rows of
/// its band.
pub proof fn lemma_grid_cells_within(
    area: Rect,
    rows: int,
    columns: int,
    bands: Seq<Rect>,
    slices: Seq<Seq<Rect>>,
    r: int,
    c: int,
)
    requires
        even_grid(area, rows, columns, bands, slices),
        0 <= r < rows,
        0 <= c < columns,
    ensures
        slices[r][c].within(area),
        slices[r][c].y == bands[r].y,
        slices[r][c].height == bands[r].height,
{
    let band = bands[r];
    let cell = slices[r][c];
    lemma_even_cut_within(area, Direction::Vertical, rows as nat, bands);
    assert(piece_of(area, Direction::Vertical, band));
    assert(evenly_cut(band, Direction::Horizontal, columns as nat, slices[r]));
    lemma_even_cut_within(band, Direction::Horizontal, columns as nat, slices[r]);
    assert(piece_of(band, Direction::Horizontal, cell));
}

/// The bands of an even grid use up the height of the area, and the slices
/// of each band its width: their heights add up to the height that the area
/// has cells in, and the widths of the slices of a band to the width.
pub proof fn lemma_grid_uses_up_area(
    area: Rect,
    rows: int,
    columns: int,
    bands: Seq<Rect>,
    slices: Seq<Seq<Rect>>,
    r: int,
)
    requires
        even_grid(area, rows, columns, bands, slices),
        0 <= r < rows,
        0 < columns,
    ensures
        total_length(bands, Direction::Vertical) == extent_of(area, Direction::Vertical),
        total_length(slices[r], Direction::Horizontal) == extent_of(area, Direction::Horizontal),
        area.fits() ==> total_length(bands, Direction::Vertical) == area.height && total_length(
            slices[r],
            Direction::Horizontal,
        ) == area.width,
{
    lemma_even_cut_uses_up_area(area, Direction::Vertical, rows as nat, bands);
    lemma_even_cut_uses_up_area(bands[r], Direction::Horizontal, columns as nat, slices[r]);
    assert(bands[r].x == area.x && bands[r].width == area.width);
}

/// The number of columns lies between one and `max_columns`, is one for an
/// area without width, and never shrinks as the width grows.
pub proof fn lemma_columns_bounded_and_monotone(grid: ResponsiveGrid, narrow: u16, wide: u16)
    requires
        grid.well_formed(),
        narrow <= wide,
    ensures
        1 <= grid.columns(narrow) <= grid.max_columns,
        grid.columns(0) == 1,
        grid.columns(narrow) <= grid.columns(wide),
{
    let m = grid.min_column_width as int;
    vstd::arithmetic::div_mod::lemma_div_is_ordered(narrow as int, wide as int, m);
    vstd::arithmetic::div_mod::lemma_basic_div(0, m);
}

/// `ceil_div(n, d)` groups of `d` hold `n` items, and one group fewer does not.
pub proof fn lemma_ceil_div(n: int, d: int)
    requires
        0 <= n,
        1 <= d,
    ensures
        0 <= ceil_div(n, d),
        (ceil_div(n, d) - 1) * d < n || n == 0,
        n <= ceil_div(n, d) * d,
        n == 0 <==> ceil_div(n, d) == 0,
{
    let q = (n + d - 1) / d;
    vstd::arithmetic::div_mod::lemma_fundamental_div_mod(n + d - 1, d);
    vstd::arithmetic::div_mod::lemma_mod_bound(n + d - 1, d);
    assert(n + d - 1 == d * q + (n + d - 1) % d);
    assert(d * q == q * d) by (nonlinear_arith);
    assert((q - 1) * d == q * d - d) by (nonlinear_arith);
    if q < 0 {
        assert(q * d <= -d) by (nonlinear_arith)
            requires
                q <= -1,
                d >= 1,
        ;
    }
    if n > 0 && q == 0 {
        assert(q * d == 0);
    }
}

/// A grid has room for every item as long as the items fit into `MAX_ROWS`
/// rows: then there is exactly one cell per item, in just as many rows as the
/// items fill.
pub proof fn lemma_one_cell_per_item(grid: ResponsiveGrid, width: u16, item_count: int)
    requires
        grid.well_formed(),
        0 <= item_count <= MAX_ROWS * grid.columns(width),
    ensures
        grid.rows(width, item_count) == ceil_div(item_count, grid.columns(width)),
        grid.cell_count(width, item_count) == item_count,
        item_count <= grid.rows(width, item_count) * grid.columns(width),
{
    let c = grid.columns(width);
    lemma_columns_bounded_and_monotone(grid, width, width);
    lemma_ceil_div(item_count, c);
    let needed = ceil_div(item_count, c);
    if item_count > 0 {
        assert(needed <= MAX_ROWS) by (nonlinear_arith)
            requires
                (needed - 1) * c < item_count,
                item_count <= MAX_ROWS * c,
                c >= 1,
        ;
    }
}

/// Past `MAX_ROWS` rows a grid hands out no more cells: with more items than
/// fit, it has `MAX_ROWS` full rows.
pub proof fn lemma_cells_capped(grid: ResponsiveGrid, width: u16, item_count: int)
    requires
        grid.well_formed(),
        item_count > MAX_ROWS * grid.columns(width),
    ensures
        grid.rows(width, item_count) == MAX_ROWS,
        grid.cell_count(width, item_count) == MAX_ROWS * grid.columns(width),
{
    let c = grid.columns(width);
    lemma_columns_bounded_and_monotone(grid, width, width);
    lemma_ceil_div(item_count, c);
    let needed = ceil_div(item_count, c);
    assert(needed > MAX_ROWS) by (nonlinear_arith)
        requires
            needed * c >= item_count,
            item_count > MAX_ROWS * c,
            c >= 1,
    ;
}

/// The cells handed out are the items that find room in the rows of the grid.
pub proof fn lemma_grid_holds_cell_count(grid: ResponsiveGrid, width: u16, item_count: int)
    requires
        grid.well_formed(),
        0 <= item_count,
    ensures
        grid.cell_count(width, item_count) == least(
            item_count,
            grid.rows(width, item_count) * grid.columns(width),
        ),
{
    if item_count <= MAX_ROWS * grid.columns(width) {
        lemma_one_cell_per_item(grid, width, item_count);
    } else {
        lemma_cells_capped(grid, width, item_count);
    }
}

/// An area narrower than the least column width gets a single column: each
/// item has a row of its own, and its cell is the whole band of that row. The
/// cells then lie one below the other and use up the area.
pub proof fn lemma_narrow_area_single_column(
    grid: ResponsiveGrid,
    area: Rect,
    item_count: int,
    cells: Seq<Rect>,
)
    requires
        grid.well_formed(),
        area.fits(),
        area.width < grid.min_column_width,
        0 <= item_count <= MAX_ROWS,
        grid.splits(area, item_count, cells),
    ensures
        grid.columns(area.width) == 1,
        cells.len() == item_count,
        evenly_cut(area, Direction::Vertical, item_count as nat, cells),
        forall|i: int|
            0 <= i < item_count ==> (#[trigger] cells[i]).x == area.x && cells[i].width
                == area.width,
{
    vstd::arithmetic::div_mod::lemma_basic_div(area.width as int, grid.min_column_width as int);
    lemma_one_cell_per_item(grid, area.width, item_count);
    let (bands, slices) = choose|bands: Seq<Rect>, slices: Seq<Seq<Rect>>|
        #[trigger] even_grid(area, item_count, 1, bands, slices) && cells == row_major(
            slices,
            1,
            cells.len(),
        );
    lemma_even_cut_within(area, Direction::Vertical, item_count as nat, bands);
    assert forall|i: int| 0 <= i < item_count implies #[trigger] cells[i] == bands[i] by {
        assert(evenly_cut(bands[i], Direction::Horizontal, 1, slices[i]));
        assert(piece_of(area, Direction::Vertical, bands[i]));
        lemma_even_cut_of_one(bands[i], Direction::Horizontal, slices[i]);
        assert(cells[i] == slices[i / 1][i % 1]);
    }
    assert(cells =~= bands);
}

/// Half of what `outer` has over `inner`, rounded down; nothing where
/// `inner` is the larger.
pub open spec fn centering_pad(outer: u16, inner: u16) -> int {
    if inner >= outer {
        0
    } else {
        (outer - inner) / 2
    }
}

/// A box of the given size centred in `container`. A box wider or higher
/// than the container is cut down to the container's size.
pub fn centered_rect_with_size(width: u16, height: u16, container: Rect) -> (r: Rect)
    requires
        container.x + centering_pad(container.width, width) <= u16::MAX,
        container.y + centering_pad(container.height, height) <= u16::MAX,
    ensures
        r.x == container.x + centering_pad(container.width, width),
        r.y == container.y + centering_pad(container.height, height),
        r.width == least(least(width as int, container.width as int), u16::MAX - r.x),
        r.height == least(least(height as int, container.height as int), u16::MAX - r.y),
        container.fits() ==> r.width == least(width as int, container.width as int) && r.height
            == least(height as int, container.height as int) && r.within(container),
{
    let vertical_padding: u16 = container.height.saturating_sub(height) / 2;
    let horizontal_padding: u16 = container.width.saturating_sub(width) / 2;
    Rect::new(
        container.x + horizontal_padding,
        container.y + vertical_padding,
        if width < container.width { width } else { container.width },
        if height < container.height { height } else { container.height },
    )
}

/// The three shares that centre a middle piece of `percent` per cent: what is
/// left over, halved and rounded down, before and after it.
pub fn centering_shares(percent: u16) -> (shares: Vec<Constraint>)
    requires
        percent <= 100,
    ensures
        shares@ == seq![
            Constraint::Percentage(((100 - percent) / 2) as u16),
            Constraint::Percentage(percent),
            Constraint::Percentage(((100 - percent) / 2) as u16),
        ],
{
    let side: u16 = (100 - percent) / 2;
    let mut shares: Vec<Constraint> = Vec::new();
    shares.push(Constraint::Percentage(side));
    shares.push(Constraint::Percentage(percent));
    shares.push(Constraint::Percentage(side));
    shares
}

/// The piece of `area` that has all of it along `direction`: it starts where
/// the area starts and reaches over all columns (or rows) the area has cells
/// in.
pub open spec fn whole_piece(area: Rect, direction: Direction) -> Rect {
    match direction {
        Direction::Horizontal => Rect {
            x: area.x,
            y: area.y,
            width: area.cell_columns() as u16,
            height: area.height,
        },
        Direction::Vertical => Rect {
            x: area.x,
            y: area.y,
            width: area.width,
            height: area.cell_rows() as u16,
        },
    }
}

/// Settles on the middle piece for a share of `percent` per cent: a share of
/// all the area is the whole piece, whatever was proposed; any other share is
/// the piece that was proposed.
pub fn settle_middle(area: Rect, direction: Direction, percent: u16, proposed: Rect) -> (middle: Rect)
    ensures
        middle == (if percent == 100 {
            whole_piece(area, direction)
        } else {
            proposed
        }),
        piece_of(area, direction, proposed) ==> piece_of(area, direction, middle),
{
    if percent == 100 {
        match direction {
            Direction::Horizontal => Rect {
                x: area.x,
                y: area.y,
                width: area.right() - area.left(),
                height: area.height,
            },
            Direction::Vertical => Rect {
                x: area.x,
                y: area.y,
                width: area.width,
                height: area.bottom() - area.top(),
            },
        }
    } else {
        proposed
    }
}

/// A box in the middle of `r` that asks for `percent_x` per cent of its width
/// and `percent_y` per cent of its height.
///
/// `r` is cut from top to bottom by `centering_shares(percent_y)`, and the
/// middle band from left to right by `centering_shares(percent_x)`; the
/// result is the middle piece of that band. A box that asks for all of the
/// width has all of it, and likewise for the height, so that a box of 100 per
/// cent both ways is `r` itself. How large the solver makes any other box is
/// not described here, only that it lies within `r`.
pub fn centered_rect(percent_x: u16, percent_y: u16, r: Rect) -> (inner: Rect)
    requires
        percent_x <= 100,
        percent_y <= 100,
    ensures
        exists|band: Rect| #[trigger]
            piece_of(r, Direction::Vertical, band) && piece_of(band, Direction::Horizontal, inner),
        inner.within(r),
        percent_x == 100 ==> inner.x == r.x && inner.width == r.cell_columns(),
        percent_y == 100 ==> inner.y == r.y && inner.height == r.cell_rows(),
        percent_x == 100 && percent_y == 100 && r.fits() ==> inner == r,
{
    let bands = solve(Direction::Vertical, &centering_shares(percent_y), r);
    let band = settle_middle(r, Direction::Vertical, percent_y, bands[1]);
    let pieces = solve(Direction::Horizontal, &centering_shares(percent_x), band);
    let inner = settle_middle(band, Direction::Horizontal, percent_x, pieces[1]);
    proof {
        assert(piece_of(r, Direction::Vertical, bands@[1]));
        assert(piece_of(r, Direction::Vertical, band));
        assert(piece_of(band, Direction::Horizontal, pieces@[1]));
        assert(piece_of(band, Direction::Horizontal, inner));
    }
    inner
}

} // verus!
