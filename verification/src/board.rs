//! The board: a width x height grid of cells with incremental scoring
//! caches, placement validation, piece commit, drop resolution, line
//! clearing with compaction, wall-kick rotation, and save/restore
//! snapshots.
//!
//! The central invariant (`Board::wf`) keeps the caches exact at all times:
//! `row_score[y]` is the number of filled cells in row `y`, and
//! `col_score[x]` is one above the highest filled cell of column `x` (0 for
//! an empty column).

use vstd::prelude::*;
use crate::piece::{cells_view, piece_min_x, piece_skirt};
use crate::piece_instance::{BoardPosition, PieceInstance, RotationDirection};
use crate::wall_kick::{get_wall_kick_index, kick_index, kick_table, wall_kick_offsets};

verus! {

/// Outcome of testing a piece placement.
#[derive(Debug, Copy, Clone, PartialEq, Eq, Structural)]
pub enum PlaceResult {
    /// All four cells are in bounds and empty.
    PlaceOk,
    /// The placement is legal and committing it would complete a row.
    RowFilled,
    /// Some cell lies outside the grid.
    OutOfBounds,
    /// Some cell is already occupied.
    PlaceBad,
}

/// The mutable state of a board: the cell grid in row-major order
/// (index = y * width + x) and the two scoring caches.
#[derive(Debug)]
pub struct BoardState {
    /// Which cells are filled, row-major.
    pub grid: Vec<bool>,
    /// How many cells are filled in each row.
    pub row_score: Vec<isize>,
    /// One above the highest filled cell of each column (0 if empty).
    pub col_score: Vec<isize>,
}

/// Number of filled cells among the first `n` cells of row `y`.
pub open spec fn row_count_upto(g: Seq<bool>, w: int, y: int, n: int) -> int
    decreases n,
{
    if n <= 0 {
        0
    } else {
        row_count_upto(g, w, y, n - 1) + if g[y * w + (n - 1)] {
            1int
        } else {
            0int
        }
    }
}

/// Number of filled cells in row `y` of a grid of width `w`.
pub open spec fn row_count(g: Seq<bool>, w: int, y: int) -> int {
    row_count_upto(g, w, y, w)
}

/// One above the highest filled cell of column `x` among rows `[0, n)`,
/// or 0 if the column is empty there.
pub open spec fn col_height_upto(g: Seq<bool>, w: int, x: int, n: int) -> int
    decreases n,
{
    if n <= 0 {
        0
    } else if g[(n - 1) * w + x] {
        n
    } else {
        col_height_upto(g, w, x, n - 1)
    }
}

/// One above the highest filled cell of column `x` in a grid of width `w`
/// and height `h`, or 0 if the column is empty.
pub open spec fn col_height(g: Seq<bool>, w: int, h: int, x: int) -> int {
    col_height_upto(g, w, x, h)
}

/// Whether cell (x, y) is filled; out-of-range coordinates read as unfilled.
pub open spec fn grid_cell(g: Seq<bool>, w: int, h: int, x: int, y: int) -> bool {
    0 <= x < w && 0 <= y < h && g[y * w + x]
}

impl BoardState {
    /// The caches are exact for a grid of width `w` and height `h`.
    pub open spec fn wf(self, w: int, h: int) -> bool {
        &&& self.grid@.len() == w * h
        &&& self.row_score@.len() == h
        &&& self.col_score@.len() == w
        &&& forall|y: int| 0 <= y < h ==> #[trigger] self.row_score@[y] as int == row_count(
            self.grid@,
            w,
            y,
        )
        &&& forall|x: int| 0 <= x < w ==> #[trigger] self.col_score@[x] as int == col_height(
            self.grid@,
            w,
            h,
            x,
        )
    }
}

/// A vector of `n` copies of `v`.
fn repeat_val<T: Copy>(n: usize, v: T) -> (r: Vec<T>)
    ensures
        r@.len() == n,
        forall|i: int| 0 <= i < n ==> #[trigger] r@[i] == v,
{
    let mut r: Vec<T> = Vec::new();
    let mut i: usize = 0;
    while i < n
        invariant
            i <= n,
            r@.len() == i,
            forall|j: int| 0 <= j < i ==> #[trigger] r@[j] == v,
        decreases n - i,
    {
        r.push(v);
        i = i + 1;
    }
    r
}

/// An all-false row has no filled cells.
proof fn lemma_row_count_empty(g: Seq<bool>, w: int, y: int, n: int)
    requires
        forall|k: int| 0 <= k < n ==> !(#[trigger] g[y * w + k]),
    ensures
        row_count_upto(g, w, y, n) == 0,
    decreases n,
{
    if n > 0 {
        lemma_row_count_empty(g, w, y, n - 1);
    }
}

/// A row count lies between 0 and the number of cells counted.
proof fn lemma_row_count_bounds(g: Seq<bool>, w: int, y: int, n: int)
    ensures
        0 <= row_count_upto(g, w, y, n) <= if n >= 0 {
            n
        } else {
            0
        },
    decreases n,
{
    if n > 0 {
        lemma_row_count_bounds(g, w, y, n - 1);
    }
}

/// A column height lies between 0 and the number of rows scanned.
proof fn lemma_col_height_bounds(g: Seq<bool>, w: int, x: int, n: int)
    ensures
        0 <= col_height_upto(g, w, x, n) <= if n >= 0 {
            n
        } else {
            0
        },
    decreases n,
{
    if n > 0 {
        lemma_col_height_bounds(g, w, x, n - 1);
    }
}

/// Row-major indexing is injective: two in-range coordinate pairs share an
/// index only when they are the same pair.
proof fn lemma_idx_inj(w: int, x1: int, y1: int, x2: int, y2: int)
    requires
        0 <= x1 < w,
        0 <= x2 < w,
    ensures
        (y1 * w + x1 == y2 * w + x2) <==> (x1 == x2 && y1 == y2),
{
    assert((y1 * w + x1 == y2 * w + x2) <==> (x1 == x2 && y1 == y2)) by (nonlinear_arith)
        requires
            0 <= x1 < w,
            0 <= x2 < w,
    ;
}

/// An in-range coordinate pair has an in-range row-major index.
proof fn lemma_idx_range(w: int, h: int, x: int, y: int)
    requires
        0 <= x < w,
        0 <= y < h,
    ensures
        0 <= y * w + x < w * h,
{
    assert(0 <= y * w + x && y * w + x < w * h) by (nonlinear_arith)
        requires
            0 <= x < w,
            0 <= y < h,
    ;
}

/// Filling cell (x, y) raises the count of row y by one and leaves every
/// other row count unchanged.
proof fn lemma_row_count_set(g: Seq<bool>, w: int, h: int, x: int, y: int, y2: int, n: int)
    requires
        g.len() == w * h,
        0 <= x < w,
        0 <= y < h,
        0 <= y2 < h,
        n <= w,
    ensures
        row_count_upto(g.update(y * w + x, true), w, y2, n) == row_count_upto(g, w, y2, n) + if (
        y2 == y && x < n && !g[y * w + x]) {
            1int
        } else {
            0int
        },
    decreases n,
{
    if n > 0 {
        lemma_row_count_set(g, w, h, x, y, y2, n - 1);
        lemma_idx_inj(w, x, y, n - 1, y2);
        lemma_idx_range(w, h, n - 1, y2);
        lemma_idx_range(w, h, x, y);
    }
}

/// Filling cell (x, y) raises the height of column x to at least y + 1 and
/// leaves every other column height unchanged.
proof fn lemma_col_height_set(g: Seq<bool>, w: int, h: int, x: int, y: int, x2: int, n: int)
    requires
        g.len() == w * h,
        0 <= x < w,
        0 <= x2 < w,
        0 <= y < h,
        n <= h,
    ensures
        col_height_upto(g.update(y * w + x, true), w, x2, n) == if x2 == x && y < n
            && col_height_upto(g, w, x2, n) <= y {
            y + 1
        } else {
            col_height_upto(g, w, x2, n)
        },
    decreases n,
{
    if n > 0 {
        lemma_col_height_set(g, w, h, x, y, x2, n - 1);
        lemma_idx_inj(w, x, y, x2, n - 1);
        lemma_idx_range(w, h, x2, n - 1);
        lemma_idx_range(w, h, x, y);
        lemma_col_height_bounds(g, w, x2, n);
        lemma_col_height_bounds(g, w, x2, n - 1);
    }
}

/// A column height ignores a stretch of empty cells at the top of the
/// scanned range.
proof fn lemma_col_height_skip_empty(g: Seq<bool>, w: int, x: int, m: int, n: int)
    requires
        0 <= m <= n,
        forall|y: int| m <= y < n ==> !(#[trigger] g[y * w + x]),
    ensures
        col_height_upto(g, w, x, n) == col_height_upto(g, w, x, m),
    decreases n,
{
    if n > m {
        lemma_col_height_skip_empty(g, w, x, m, n - 1);
    }
}

/// Whether the list of rows contains `v`.
fn rows_contains(rows: &Vec<isize>, v: isize) -> (b: bool)
    ensures
        b == row_listed(rows@, v as int),
{
    let mut i: usize = 0;
    while i < rows.len()
        invariant
            i <= rows@.len(),
            forall|j: int| 0 <= j < i ==> (#[trigger] rows@[j]) != v,
        decreases rows@.len() - i,
    {
        if rows[i] == v {
            return true;
        }
        i = i + 1;
    }
    false
}

/// The smallest listed row.
fn rows_min(rows: &Vec<isize>) -> (m: isize)
    requires
        rows@.len() > 0,
    ensures
        forall|j: int| 0 <= j < rows@.len() ==> m <= #[trigger] rows@[j],
        exists|j: int| 0 <= j < rows@.len() && m == #[trigger] rows@[j],
{
    let mut m = rows[0];
    let mut i: usize = 1;
    while i < rows.len()
        invariant
            1 <= i <= rows@.len(),
            forall|j: int| 0 <= j < i ==> m <= #[trigger] rows@[j],
            exists|j: int| 0 <= j < i && m == #[trigger] rows@[j],
        decreases rows@.len() - i,
    {
        if rows[i] < m {
            m = rows[i];
        }
        i = i + 1;
    }
    m
}

/// Two rows that agree cell-for-cell have the same count.
proof fn lemma_row_count_congruent(g1: Seq<bool>, y1: int, g2: Seq<bool>, y2: int, w: int, n: int)
    requires
        forall|k: int| 0 <= k < n ==> #[trigger] g1[y1 * w + k] == g2[y2 * w + k],
    ensures
        row_count_upto(g1, w, y1, n) == row_count_upto(g2, w, y2, n),
    decreases n,
{
    if n > 0 {
        lemma_row_count_congruent(g1, y1, g2, y2, w, n - 1);
    }
}

/// Two columns that agree cell-for-cell have the same height.
proof fn lemma_col_height_congruent(g1: Seq<bool>, x1: int, g2: Seq<bool>, x2: int, w: int, n: int)
    requires
        forall|k: int| 0 <= k < n ==> #[trigger] g1[k * w + x1] == g2[k * w + x2],
    ensures
        col_height_upto(g1, w, x1, n) == col_height_upto(g2, w, x2, n),
    decreases n,
{
    if n > 0 {
        lemma_col_height_congruent(g1, x1, g2, x2, w, n - 1);
    }
}

/// A column height names the first filled cell found scanning downward: the
/// cell just below the height is filled (unless the column is empty) and
/// everything at or above the height is empty.
proof fn lemma_col_height_characterize(g: Seq<bool>, w: int, x: int, n: int)
    ensures
        col_height_upto(g, w, x, n) > 0 ==> g[(col_height_upto(g, w, x, n) - 1) * w + x],
        forall|y: int| col_height_upto(g, w, x, n) <= y < n ==> !(#[trigger] g[y * w + x]),
    decreases n,
{
    if n > 0 {
        lemma_col_height_characterize(g, w, x, n - 1);
        lemma_col_height_bounds(g, w, x, n - 1);
    }
}

/// A row with an empty cell is not complete.
proof fn lemma_row_count_missing(g: Seq<bool>, w: int, x: int, y: int, n: int)
    requires
        0 <= x < n,
        !g[y * w + x],
    ensures
        row_count_upto(g, w, y, n) <= n - 1,
    decreases n,
{
    lemma_row_count_bounds(g, w, y, n - 1);
    if x < n - 1 {
        lemma_row_count_missing(g, w, x, y, n - 1);
    }
}

/// Filling cells never lowers a row count.
proof fn lemma_row_count_mono(g1: Seq<bool>, g2: Seq<bool>, w: int, y: int, n: int)
    requires
        forall|k: int| 0 <= k < n ==> (#[trigger] g1[y * w + k] ==> g2[y * w + k]),
    ensures
        row_count_upto(g1, w, y, n) <= row_count_upto(g2, w, y, n),
    decreases n,
{
    if n > 0 {
        lemma_row_count_mono(g1, g2, w, y, n - 1);
    }
}

/// Number of piece cells among the first `n` whose relative row is `dy`.
pub open spec fn cells_in_row_upto(cells: Seq<(int, int)>, dy: int, n: int) -> int
    decreases n,
{
    if n <= 0 {
        0
    } else {
        cells_in_row_upto(cells, dy, n - 1) + if cells[n - 1].1 == dy {
            1int
        } else {
            0int
        }
    }
}

/// Number of piece cells whose relative row is `dy`.
pub open spec fn cells_in_row(cells: Seq<(int, int)>, dy: int) -> int {
    cells_in_row_upto(cells, dy, cells.len() as int)
}

/// Every cell of the piece footprint lies inside the grid when the piece
/// origin is at (px, py).
pub open spec fn placement_in_bounds(
    w: int,
    h: int,
    cells: Seq<(int, int)>,
    px: int,
    py: int,
) -> bool {
    forall|i: int|
        0 <= i < cells.len() ==> 0 <= px + (#[trigger] cells[i]).0 < w && 0 <= py + cells[i].1 < h
}

/// Every cell of the piece footprint lands on an empty grid cell.
pub open spec fn placement_free(
    g: Seq<bool>,
    w: int,
    cells: Seq<(int, int)>,
    px: int,
    py: int,
) -> bool {
    forall|i: int|
        0 <= i < cells.len() ==> !g[(py + (#[trigger] cells[i]).1) * w + (px + cells[i].0)]
}

/// Committing the footprint would complete some row: a row the piece
/// touches whose current count plus the piece's cells in that row reaches
/// the width.
pub open spec fn placement_fills_row(
    g: Seq<bool>,
    w: int,
    cells: Seq<(int, int)>,
    px: int,
    py: int,
) -> bool {
    exists|i: int|
        0 <= i < cells.len() && row_count(g, w, py + (#[trigger] cells[i]).1) + cells_in_row(
            cells,
            cells[i].1,
        ) == w
}

/// The outcome of testing the footprint `cells` at origin (px, py): out of
/// bounds takes precedence, then collision, then row completion.
pub open spec fn place_result_spec(
    g: Seq<bool>,
    w: int,
    h: int,
    cells: Seq<(int, int)>,
    px: int,
    py: int,
) -> PlaceResult {
    if !placement_in_bounds(w, h, cells, px, py) {
        PlaceResult::OutOfBounds
    } else if !placement_free(g, w, cells, px, py) {
        PlaceResult::PlaceBad
    } else if placement_fills_row(g, w, cells, px, py) {
        PlaceResult::RowFilled
    } else {
        PlaceResult::PlaceOk
    }
}

/// A placement is legal when all its cells are in bounds and empty.
pub open spec fn placement_legal(
    g: Seq<bool>,
    w: int,
    h: int,
    cells: Seq<(int, int)>,
    px: int,
    py: int,
) -> bool {
    placement_in_bounds(w, h, cells, px, py) && placement_free(g, w, cells, px, py)
}

/// Some piece cell at origin (px, py) lands on (x, y); only the first `n`
/// cells are considered.
pub open spec fn covers_upto(
    cells: Seq<(int, int)>,
    px: int,
    py: int,
    x: int,
    y: int,
    n: int,
) -> bool {
    exists|j: int| 0 <= j < n && px + (#[trigger] cells[j]).0 == x && py + cells[j].1 == y
}

/// Some piece cell at origin (px, py) lands on (x, y).
pub open spec fn covers(cells: Seq<(int, int)>, px: int, py: int, x: int, y: int) -> bool {
    covers_upto(cells, px, py, x, y, cells.len() as int)
}

/// Number of listed rows, among the first `n`, strictly below row `y`.
pub open spec fn count_lt_upto(rows: Seq<isize>, y: int, n: int) -> int
    decreases n,
{
    if n <= 0 {
        0
    } else {
        count_lt_upto(rows, y, n - 1) + if (rows[n - 1] as int) < y {
            1int
        } else {
            0int
        }
    }
}

/// Number of listed rows strictly below row `y`: how far row `y` slides
/// down when the listed rows are cleared.
pub open spec fn cleared_below(rows: Seq<isize>, y: int) -> int {
    count_lt_upto(rows, y, rows.len() as int)
}

/// Number of listed rows, among the first `n`, equal to row `y`.
pub open spec fn count_eq_upto(rows: Seq<isize>, y: int, n: int) -> int
    decreases n,
{
    if n <= 0 {
        0
    } else {
        count_eq_upto(rows, y, n - 1) + if rows[n - 1] as int == y {
            1int
        } else {
            0int
        }
    }
}

/// Row `y` appears in the list.
pub open spec fn row_listed(rows: Seq<isize>, y: int) -> bool {
    exists|i: int| 0 <= i < rows.len() && (#[trigger] rows[i]) as int == y
}

/// The listed rows are pairwise distinct.
pub open spec fn rows_distinct(rows: Seq<isize>) -> bool {
    forall|i: int, j: int| 0 <= i < j < rows.len() ==> #[trigger] rows[i] != #[trigger] rows[j]
}

/// Every listed row lies inside a grid of height `h`.
pub open spec fn rows_in_range(rows: Seq<isize>, h: int) -> bool {
    forall|i: int| 0 <= i < rows.len() ==> 0 <= (#[trigger] rows[i]) as int && ((rows[i]) as int) < h
}

proof fn lemma_count_lt_zero(rows: Seq<isize>, y: int, n: int)
    requires
        forall|i: int| 0 <= i < n ==> (#[trigger] rows[i]) as int >= y,
    ensures
        count_lt_upto(rows, y, n) == 0,
    decreases n,
{
    if n > 0 {
        lemma_count_lt_zero(rows, y, n - 1);
    }
}

proof fn lemma_count_lt_bounds(rows: Seq<isize>, y: int, n: int)
    ensures
        0 <= count_lt_upto(rows, y, n) <= if n >= 0 {
            n
        } else {
            0
        },
    decreases n,
{
    if n > 0 {
        lemma_count_lt_bounds(rows, y, n - 1);
    }
}

/// Moving the threshold up one row adds exactly the rows equal to `y`.
proof fn lemma_count_lt_step(rows: Seq<isize>, y: int, n: int)
    ensures
        count_lt_upto(rows, y + 1, n) == count_lt_upto(rows, y, n) + count_eq_upto(rows, y, n),
    decreases n,
{
    if n > 0 {
        lemma_count_lt_step(rows, y, n - 1);
    }
}

proof fn lemma_count_eq_zero(rows: Seq<isize>, y: int, n: int)
    requires
        forall|i: int| 0 <= i < n ==> (#[trigger] rows[i]) as int != y,
    ensures
        count_eq_upto(rows, y, n) == 0,
    decreases n,
{
    if n > 0 {
        lemma_count_eq_zero(rows, y, n - 1);
    }
}

/// In a duplicate-free list, a row is counted at most once.
proof fn lemma_count_eq_bound(rows: Seq<isize>, y: int, n: int)
    requires
        rows_distinct(rows),
        n <= rows.len(),
    ensures
        count_eq_upto(rows, y, n) == if exists|i: int|
            0 <= i < n && (#[trigger] rows[i]) as int == y {
            1int
        } else {
            0int
        },
    decreases n,
{
    if n > 0 {
        if rows[n - 1] as int == y {
            assert forall|i: int| 0 <= i < n - 1 implies (#[trigger] rows[i]) as int != y by {
                assert(rows[i] != rows[n - 1]);
            }
            lemma_count_eq_zero(rows, y, n - 1);
        } else {
            lemma_count_eq_bound(rows, y, n - 1);
            if exists|i: int| 0 <= i < n && (#[trigger] rows[i]) as int == y {
                let i = choose|i: int| 0 <= i < n && (#[trigger] rows[i]) as int == y;
                assert(0 <= i < n - 1 && rows[i] as int == y);
            }
        }
    }
}

/// The slide distance `cleared_below` grows by at most one per row, and not
/// at all across a kept row.
proof fn lemma_cleared_below_mono(rows: Seq<isize>, a: int, b: int)
    requires
        rows_distinct(rows),
        a <= b,
    ensures
        0 <= cleared_below(rows, b) - cleared_below(rows, a) <= b - a,
        a < b && !row_listed(rows, a) ==> cleared_below(rows, b) - cleared_below(rows, a) <= b - a
            - 1,
    decreases b - a,
{
    if a < b {
        lemma_cleared_below_mono(rows, a + 1, b);
        lemma_count_lt_step(rows, a, rows.len() as int);
        lemma_count_eq_bound(rows, a, rows.len() as int);
    }
}

/// All rows of an in-range list lie below the board top.
proof fn lemma_cleared_below_all(rows: Seq<isize>, h: int, n: int)
    requires
        rows_in_range(rows, h),
        n <= rows.len(),
    ensures
        count_lt_upto(rows, h, n) == if n >= 0 {
            n
        } else {
            0
        },
    decreases n,
{
    if n > 0 {
        lemma_cleared_below_all(rows, h, n - 1);
    }
}

/// Row `y` of the compacted grid receives its content from some kept row
/// `rr` below the bound: `rr` is not listed and slides down exactly to `y`.
pub open spec fn has_source(rl: Seq<isize>, y: int, hi: int) -> bool {
    exists|rr: int|
        y <= rr < hi && !row_listed(rl, rr) && y == rr - (#[trigger] cleared_below(rl, rr))
}

proof fn lemma_has_source_widen(rl: Seq<isize>, y: int, hi1: int, hi2: int)
    requires
        has_source(rl, y, hi1),
        hi1 <= hi2,
    ensures
        has_source(rl, y, hi2),
{
    let rr = choose|rr: int|
        y <= rr < hi1 && !row_listed(rl, rr) && y == rr - (#[trigger] cleared_below(rl, rr));
    assert(y <= rr < hi2 && !row_listed(rl, rr) && y == rr - cleared_below(rl, rr));
}

/// Grid `g1` is grid `g0` (of width `w` and height `h`) with the in-range
/// cells of the piece footprint set: exactly the effect of committing the
/// piece.
pub open spec fn commit_grid_rel(
    g0: Seq<bool>,
    g1: Seq<bool>,
    w: int,
    h: int,
    piece: PieceInstance,
) -> bool {
    forall|x: int, y: int|
        0 <= x < w && 0 <= y < h ==> (g1[y * w + x] <==> g0[y * w + x] || #[trigger] covers(
            piece.footprint(),
            piece.position.x as int,
            piece.position.y as int,
            x,
            y,
        ))
}

/// Row `y` was completed by a commit: not full before it, full after it.
pub open spec fn became_full(g0: Seq<bool>, g1: Seq<bool>, w: int, y: int) -> bool {
    row_count(g0, w, y) < w && row_count(g1, w, y) == w
}

/// Coordinate arithmetic on this position cannot overflow when a piece cell
/// offset (at most 3) and a wall-kick offset (at most 2) are added.
pub open spec fn pos_arith_ok(pos: BoardPosition) -> bool {
    &&& pos.x as int + 8 <= isize::MAX as int
    &&& pos.y as int + 8 <= isize::MAX as int
    &&& isize::MIN as int + 8 <= pos.x as int
    &&& isize::MIN as int + 8 <= pos.y as int
}

/// The board: fixed dimensions, the live state, an optional saved snapshot
/// for pause-driven save/resume, and the scoring accumulator.
#[derive(Debug)]
pub struct Board {
    /// Overall width in cells. Immutable after construction.
    pub width: isize,
    /// Overall height in cells. Immutable after construction.
    pub height: isize,
    /// The live grid state. Mutate it only through board operations: the
    /// board's well-formedness ties its caches to its grid.
    pub state: BoardState,
    /// The saved snapshot for pause-driven save/resume, if any.
    pub saved_state: Option<BoardState>,
    /// The accumulated score.
    pub score: usize,
}

impl Board {
    /// The cell grid, row-major (index = y * width + x).
    pub open spec fn grid(self) -> Seq<bool> {
        self.state.grid@
    }

    /// The per-row filled-cell counts.
    pub open spec fn rows(self) -> Seq<isize> {
        self.state.row_score@
    }

    /// The per-column stack heights.
    pub open spec fn cols(self) -> Seq<isize> {
        self.state.col_score@
    }

    /// The saved snapshot, if any.
    pub open spec fn saved(self) -> Option<BoardState> {
        self.saved_state
    }

    /// The accumulated score.
    pub open spec fn score_val(self) -> usize {
        self.score
    }

    /// Whether cell (x, y) is filled; out-of-range coordinates read as
    /// unfilled.
    pub open spec fn cell(self, x: int, y: int) -> bool {
        grid_cell(self.grid(), self.width as int, self.height as int, x, y)
    }

    /// Row `y` is complete.
    pub open spec fn row_full(self, y: int) -> bool {
        row_count(self.grid(), self.width as int, y) == self.width as int
    }

    /// Dimensions are positive, the grid fits the address space, and the
    /// scoring caches (of the live state and of any snapshot) are exact.
    pub open spec fn wf(self) -> bool {
        &&& 1 <= self.width as int
        &&& 1 <= self.height as int
        &&& self.width as int * self.height as int <= isize::MAX as int
        &&& self.state.wf(self.width as int, self.height as int)
        &&& match self.saved_state {
            Some(s) => s.wf(self.width as int, self.height as int),
            None => true,
        }
    }

    /// The dimensions and address-space bound of a well-formed board,
    /// available to callers without unfolding `wf`.
    pub proof fn lemma_wf_dims(self)
        requires
            self.wf(),
        ensures
            1 <= self.width as int,
            1 <= self.height as int,
            self.width as int * self.height as int <= isize::MAX as int,
            self.grid().len() == self.width as int * self.height as int,
            self.rows().len() == self.height as int,
            self.cols().len() == self.width as int,
    {
    }

    /// The law behind the scoring caches: on a well-formed board,
    /// `row_score[y]` equals the exact count of filled cells in row y, and
    /// `col_score[x]` equals one above the highest filled cell of column x
    /// (0 if the column is empty), as recomputed from the raw grid.
    pub proof fn lemma_scores_exact(self)
        requires
            self.wf(),
        ensures
            forall|y: int|
                0 <= y < self.height as int ==> #[trigger] self.rows()[y] as int == row_count(
                    self.grid(),
                    self.width as int,
                    y,
                ),
            forall|x: int|
                0 <= x < self.width as int ==> #[trigger] self.cols()[x] as int == col_height(
                    self.grid(),
                    self.width as int,
                    self.height as int,
                    x,
                ),
    {
    }

    /// A new board of the given dimensions: empty grid, zero scores, no
    /// snapshot. Zero dimensions are construction-time misconfigurations and
    /// are excluded; `try_new` reports them as errors instead.
    pub fn new(width: usize, height: usize) -> (b: Self)
        requires
            1 <= width,
            1 <= height,
            width * height <= isize::MAX as int,
        ensures
            b.wf(),
            b.width == width as int,
            b.height == height as int,
            forall|x: int, y: int| !b.cell(x, y),
            b.saved() is None,
            b.score_val() == 0,
            forall|y: int| 0 <= y < height ==> #[trigger] b.rows()[y] == 0,
            forall|x: int| 0 <= x < width ==> #[trigger] b.cols()[x] == 0,
    {
        proof {
            let w = width as int;
            let h = height as int;
            assert(w <= w * h && h <= w * h) by (nonlinear_arith)
                requires
                    1 <= w,
                    1 <= h,
            ;
        }
        let state = BoardState::new(width, height);
        let b = Self {
            width: width as isize,
            height: height as isize,
            state,
            saved_state: None,
            score: 0,
        };
        proof {
            let w = width as int;
            let h = height as int;
            let g = b.state.grid@;
            assert forall|y: int, k: int| 0 <= y < h && 0 <= k < w implies !(#[trigger] g[y * w
                + k]) by {
                assert(0 <= y * w + k && y * w + k < w * h) by (nonlinear_arith)
                    requires
                        0 <= y < h,
                        0 <= k < w,
                ;
            }
            assert forall|y: int| 0 <= y < h implies #[trigger] b.state.row_score@[y] as int
                == row_count(g, w, y) by {
                lemma_row_count_empty(g, w, y, w);
            }
            assert forall|x: int| 0 <= x < w implies #[trigger] b.state.col_score@[x] as int
                == col_height(g, w, h, x) by {
                lemma_col_height_characterize(g, w, x, h);
                lemma_col_height_bounds(g, w, x, h);
                let c = col_height_upto(g, w, x, h);
                if c > 0 {
                    assert(!g[(c - 1) * w + x]);
                }
            }
        }
        b
    }

    /// A new board, or a descriptive error for a zero dimension or a grid
    /// too large for the address space.
    pub fn try_new(width: usize, height: usize) -> (r: Result<Self, &'static str>)
        ensures
            r matches Ok(b) ==> b.wf() && b.width == width as int && b.height == height as int
                && forall|x: int, y: int| !b.cell(x, y),
            r is Ok <==> 1 <= width && 1 <= height && width * height <= isize::MAX as int,
    {
        if width == 0 || height == 0 {
            return Err("board dimensions must be positive");
        }
        if width > isize::MAX as usize / height {
            proof {
                let w = width as int;
                let h = height as int;
                let m = isize::MAX as int;
                assert(w > m / h ==> w * h > m) by (nonlinear_arith)
                    requires
                        h >= 1,
                        m >= 1,
                ;
            }
            return Err("board dimensions overflow the grid index space");
        }
        proof {
            let w = width as int;
            let h = height as int;
            let m = isize::MAX as int;
            assert(w <= m / h ==> w * h <= m) by (nonlinear_arith)
                requires
                    h >= 1,
                    m >= 1,
            ;
        }
        Ok(Self::new(width, height))
    }

    /// The horizontal midpoint of the board (rounded down), used to center
    /// spawned pieces.
    pub fn midpoint_x(&self) -> (r: isize)
        requires
            self.wf(),
        ensures
            r == self.width as int / 2,
    {
        proof {
            self.lemma_wf_dims();
        }
        self.width / 2
    }

    /// Whether the cell at `pos` is filled. Out-of-range positions read as
    /// unfilled rather than failing.
    pub fn is_cell_filled(&self, pos: BoardPosition) -> (r: bool)
        requires
            self.wf(),
        ensures
            r == self.cell(pos.x as int, pos.y as int),
    {
        if pos.x < 0 || pos.y < 0 || pos.x >= self.width || pos.y >= self.height {
            return false;
        }
        proof {
            self.lemma_wf_dims();
            let x = pos.x as int;
            let y = pos.y as int;
            let w = self.width as int;
            let h = self.height as int;
            assert(0 <= y * w + x && y * w + x < w * h) by (nonlinear_arith)
                requires
                    0 <= x < w,
                    0 <= y < h,
            ;
        }
        let idx = (pos.y * self.width + pos.x) as usize;
        self.state.grid[idx]
    }

    /// The outcome of placing `piece` with its origin at (px, py) on this
    /// board.
    pub open spec fn place_result_at(self, piece: PieceInstance, px: int, py: int) -> PlaceResult {
        place_result_spec(
            self.grid(),
            self.width as int,
            self.height as int,
            piece.footprint(),
            px,
            py,
        )
    }

    /// The placement of `piece` at (px, py) is legal: in bounds and free.
    pub open spec fn placement_legal_at(self, piece: PieceInstance, px: int, py: int) -> bool {
        placement_legal(
            self.grid(),
            self.width as int,
            self.height as int,
            piece.footprint(),
            px,
            py,
        )
    }

    /// Check the validity of a desired piece placement without mutating the
    /// board: `OutOfBounds` if any cell falls outside the grid, `PlaceBad`
    /// if any cell is occupied, `RowFilled` if the placement is legal and
    /// committing it would complete a row (a read-only lookahead), and
    /// `PlaceOk` otherwise.
    pub fn try_place(&self, piece: &PieceInstance, board_pos: BoardPosition) -> (r: PlaceResult)
        requires
            self.wf(),
            piece.wf(),
            board_pos.x as int + 3 <= isize::MAX as int,
            board_pos.y as int + 3 <= isize::MAX as int,
        ensures
            r == self.place_result_at(*piece, board_pos.x as int, board_pos.y as int),
    {
        let ghost w = self.width as int;
        let ghost h = self.height as int;
        let ghost c = piece.footprint();
        proof {
            self.lemma_wf_dims();
            crate::piece::lemma_cells_bounds(piece.typ, piece.rot_idx as int % 4);
        }
        let cells = piece.cells();

        // Bounds pass: any cell outside the grid rejects the placement.
        let mut i: usize = 0;
        while i < 4
            invariant
                self.wf(),
                piece.wf(),
                board_pos.x as int + 3 <= isize::MAX as int,
                board_pos.y as int + 3 <= isize::MAX as int,
                cells_view(cells@) == c,
                c == piece.footprint(),
                c.len() == 4,
                forall|k: int| 0 <= k < 4 ==> 0 <= (#[trigger] c[k]).0 <= 3 && 0 <= c[k].1 <= 3,
                w == self.width as int,
                h == self.height as int,
                i <= 4,
                forall|k: int|
                    0 <= k < i ==> 0 <= board_pos.x as int + (#[trigger] c[k]).0 < w && 0
                        <= board_pos.y as int + c[k].1 < h,
            decreases 4 - i,
        {
            let (dx, dy) = cells[i];
            proof {
                assert(c[i as int] == (dx as int, dy as int));
            }
            let cx = board_pos.x + dx;
            let cy = board_pos.y + dy;
            if cx < 0 || cy < 0 || cx >= self.width || cy >= self.height {
                proof {
                    assert(!placement_in_bounds(w, h, c, board_pos.x as int, board_pos.y as int));
                }
                return PlaceResult::OutOfBounds;
            }
            i = i + 1;
        }

        // Occupancy pass: any filled target cell rejects the placement.
        let mut i: usize = 0;
        while i < 4
            invariant
                self.wf(),
                piece.wf(),
                board_pos.x as int + 3 <= isize::MAX as int,
                board_pos.y as int + 3 <= isize::MAX as int,
                cells_view(cells@) == c,
                c == piece.footprint(),
                c.len() == 4,
                forall|k: int| 0 <= k < 4 ==> 0 <= (#[trigger] c[k]).0 <= 3 && 0 <= c[k].1 <= 3,
                w == self.width as int,
                h == self.height as int,
                i <= 4,
                placement_in_bounds(w, h, c, board_pos.x as int, board_pos.y as int),
                forall|k: int|
                    0 <= k < i ==> !self.grid()[(board_pos.y as int + (#[trigger] c[k]).1) * w + (
                    board_pos.x as int + c[k].0)],
            decreases 4 - i,
        {
            let (dx, dy) = cells[i];
            proof {
                assert(c[i as int] == (dx as int, dy as int));
            }
            let cx = board_pos.x + dx;
            let cy = board_pos.y + dy;
            proof {
                lemma_idx_range(w, h, cx as int, cy as int);
            }
            let idx = (cy * self.width + cx) as usize;
            if self.state.grid[idx] {
                proof {
                    assert(!placement_free(self.grid(), w, c, board_pos.x as int, board_pos.y as int));
                }
                return PlaceResult::PlaceBad;
            }
            i = i + 1;
        }

        // Row-completion lookahead: a touched row completes when its current
        // count plus the piece's cells in it reaches the width.
        let mut i: usize = 0;
        while i < 4
            invariant
                self.wf(),
                piece.wf(),
                board_pos.x as int + 3 <= isize::MAX as int,
                board_pos.y as int + 3 <= isize::MAX as int,
                cells_view(cells@) == c,
                c == piece.footprint(),
                c.len() == 4,
                forall|k: int| 0 <= k < 4 ==> 0 <= (#[trigger] c[k]).0 <= 3 && 0 <= c[k].1 <= 3,
                w == self.width as int,
                h == self.height as int,
                i <= 4,
                placement_in_bounds(w, h, c, board_pos.x as int, board_pos.y as int),
                placement_free(self.grid(), w, c, board_pos.x as int, board_pos.y as int),
                forall|k: int|
                    0 <= k < i ==> row_count(self.grid(), w, board_pos.y as int + (
                    #[trigger] c[k]).1) + cells_in_row(c, c[k].1) != w,
            decreases 4 - i,
        {
            let (dx, dy) = cells[i];
            proof {
                assert(c[i as int] == (dx as int, dy as int));
            }
            let cy = board_pos.y + dy;
            let mut cnt: isize = 0;
            let mut j: usize = 0;
            while j < 4
                invariant
                    cells_view(cells@) == c,
                    c.len() == 4,
                    j <= 4,
                    cnt as int == cells_in_row_upto(c, dy as int, j as int),
                    0 <= cnt <= j,
                decreases 4 - j,
            {
                let (_, dy2) = cells[j];
                proof {
                    assert(c[j as int] == (cells@[j as int].0 as int, dy2 as int));
                }
                if dy2 == dy {
                    cnt = cnt + 1;
                }
                j = j + 1;
            }
            proof {
                self.lemma_scores_exact();
                lemma_row_count_bounds(self.grid(), w, cy as int, w);
            }
            let row = self.state.row_score[cy as usize];
            if self.width - row == cnt {
                proof {
                    assert(row_count(self.grid(), w, board_pos.y as int + c[i as int].1)
                        + cells_in_row(c, c[i as int].1) == w);
                }
                return PlaceResult::RowFilled;
            }
            i = i + 1;
        }
        proof {
            assert(!placement_fills_row(self.grid(), w, c, board_pos.x as int, board_pos.y as int));
        }
        PlaceResult::PlaceOk
    }

    /// Fill one cell and keep the scoring caches exact. Out-of-range
    /// positions report `OutOfBounds` and change nothing; an already-filled
    /// cell changes nothing (this keeps the caches exact even under a
    /// forced game-over commit). Reports `RowFilled` exactly when this fill
    /// completes the row.
    fn fill_cell(&mut self, pos: BoardPosition) -> (r: PlaceResult)
        requires
            old(self).wf(),
        ensures
            final (self).wf(),
            final (self).width == old(self).width,
            final (self).height == old(self).height,
            final (self).saved() == old(self).saved(),
            final (self).score_val() == old(self).score_val(),
            final (self).grid().len() == old(self).grid().len(),
            !(0 <= pos.x as int && (pos.x as int) < old(self).width as int && 0 <= pos.y as int
                && (pos.y as int) < old(self).height as int) ==> r == PlaceResult::OutOfBounds
                && final (self).grid() == old(self).grid() && final (self).rows() == old(
            self).rows() && final (self).cols() == old(self).cols(),
            old(self).cell(pos.x as int, pos.y as int) ==> r == PlaceResult::PlaceOk && final (
            self).grid() == old(self).grid() && final (self).rows() == old(self).rows() && final (
            self).cols() == old(self).cols(),
            (0 <= pos.x as int && (pos.x as int) < old(self).width as int && 0 <= pos.y as int && (
            pos.y as int) < old(self).height as int && !old(self).cell(pos.x as int, pos.y as int))
                ==> final (self).grid() == old(self).grid().update(
                pos.y as int * old(self).width as int + pos.x as int,
                true,
            ) && r == (if row_count(old(self).grid(), old(self).width as int, pos.y as int) + 1
                == old(self).width as int {
                PlaceResult::RowFilled
            } else {
                PlaceResult::PlaceOk
            }),
    {
        let ghost w = self.width as int;
        let ghost h = self.height as int;
        proof {
            self.lemma_wf_dims();
        }
        if pos.x < 0 || pos.y < 0 || pos.x >= self.width || pos.y >= self.height {
            return PlaceResult::OutOfBounds;
        }
        proof {
            lemma_idx_range(w, h, pos.x as int, pos.y as int);
        }
        let idx = (pos.y * self.width + pos.x) as usize;
        if self.state.grid[idx] {
            return PlaceResult::PlaceOk;
        }
        let ghost g0 = self.state.grid@;
        proof {
            self.lemma_scores_exact();
            lemma_row_count_missing(g0, w, pos.x as int, pos.y as int, w);
            assert(h <= w * h) by (nonlinear_arith)
                requires
                    1 <= w,
                    1 <= h,
            ;
        }
        self.state.grid.set(idx, true);
        self.state.update_col_score(pos);
        let new_count = self.state.update_row_score(pos);
        proof {
            let x = pos.x as int;
            let y = pos.y as int;
            let g1 = self.state.grid@;
            assert(g1 == g0.update(y * w + x, true));
            assert forall|y2: int| 0 <= y2 < h implies #[trigger] self.state.row_score@[y2] as int
                == row_count(g1, w, y2) by {
                lemma_row_count_set(g0, w, h, x, y, y2, w);
            }
            assert forall|x2: int| 0 <= x2 < w implies #[trigger] self.state.col_score@[x2] as int
                == col_height(g1, w, h, x2) by {
                lemma_col_height_set(g0, w, h, x, y, x2, h);
            }
        }
        if new_count == self.width {
            PlaceResult::RowFilled
        } else {
            PlaceResult::PlaceOk
        }
    }

    /// Commit all cells of a piece: mark them filled, update the scoring
    /// caches incrementally, and collect the rows this commit completes
    /// (`None` when it completes none). Cells outside the grid or already
    /// filled are skipped, so a forced commit of an illegally placed piece
    /// (the game-over path) still leaves the board exact.
    #[verifier::rlimit(100)]
    #[verifier::spinoff_prover]
    pub fn commit_piece(&mut self, piece: &PieceInstance) -> (r: Option<Vec<isize>>)
        requires
            old(self).wf(),
            piece.wf(),
            pos_arith_ok(piece.position),
        ensures
            final (self).wf(),
            final (self).width == old(self).width,
            final (self).height == old(self).height,
            final (self).saved() == old(self).saved(),
            final (self).score_val() == old(self).score_val(),
            final (self).grid().len() == old(self).grid().len(),
            commit_grid_rel(
                old(self).grid(),
                final (self).grid(),
                old(self).width as int,
                old(self).height as int,
                *piece,
            ),
            r matches Some(rows) ==> rows@.len() > 0,
            r matches Some(rows) ==> forall|k: int|
                0 <= k < rows@.len() ==> 0 <= (#[trigger] rows@[k]) as int && ((rows@[k]) as int)
                    < old(self).height as int && became_full(
                    old(self).grid(),
                    final (self).grid(),
                    old(self).width as int,
                    rows@[k] as int,
                ),
            r matches Some(rows) ==> forall|k1: int, k2: int|
                0 <= k1 < k2 < rows@.len() ==> #[trigger] rows@[k1] != #[trigger] rows@[k2],
            r is None ==> forall|y: int|
                0 <= y < old(self).height as int ==> !(#[trigger] became_full(
                    old(self).grid(),
                    final (self).grid(),
                    old(self).width as int,
                    y,
                )),
            r matches Some(rows) ==> forall|y: int|
                0 <= y < old(self).height as int && #[trigger] became_full(
                    old(self).grid(),
                    final (self).grid(),
                    old(self).width as int,
                    y,
                ) ==> exists|k: int| 0 <= k < rows@.len() && (#[trigger] rows@[k]) as int == y,
    {
        let ghost w = self.width as int;
        let ghost h = self.height as int;
        let ghost g0 = self.state.grid@;
        let ghost c = piece.footprint();
        let ghost px = piece.position.x as int;
        let ghost py = piece.position.y as int;
        proof {
            self.lemma_wf_dims();
            crate::piece::lemma_cells_bounds(piece.typ, piece.rot_idx as int % 4);
        }
        let cells = piece.cells();
        let mut rows: Vec<isize> = Vec::new();
        let mut i: usize = 0;
        while i < 4
            invariant
                self.wf(),
                self.width == old(self).width,
                self.height == old(self).height,
                self.saved() == old(self).saved(),
                self.score_val() == old(self).score_val(),
                self.grid().len() == g0.len(),
                w == self.width as int,
                h == self.height as int,
                g0 == old(self).grid(),
                g0.len() == w * h,
                c == piece.footprint(),
                cells_view(cells@) == c,
                c.len() == 4,
                forall|k: int| 0 <= k < 4 ==> 0 <= (#[trigger] c[k]).0 <= 3 && 0 <= c[k].1 <= 3,
                px == piece.position.x as int,
                py == piece.position.y as int,
                pos_arith_ok(piece.position),
                i <= 4,
                forall|x: int, y: int|
                    0 <= x < w && 0 <= y < h ==> ((#[trigger] g0[y * w + x]) || covers_upto(
                        c,
                        px,
                        py,
                        x,
                        y,
                        i as int,
                    ) <==> self.grid()[y * w + x]),
                forall|k: int|
                    0 <= k < rows@.len() ==> 0 <= (#[trigger] rows@[k]) as int && ((rows@[k]) as int)
                        < h && row_count(
                        self.grid(),
                        w,
                        rows@[k] as int,
                    ) == w && row_count(g0, w, rows@[k] as int) < w,
                forall|k1: int, k2: int|
                    0 <= k1 < k2 < rows@.len() ==> #[trigger] rows@[k1] != #[trigger] rows@[k2],
                forall|y: int|
                    0 <= y < h && became_full(g0, self.grid(), w, y) ==> exists|k: int|
                        0 <= k < rows@.len() && (#[trigger] rows@[k]) as int == y,
            decreases 4 - i,
        {
            let ghost g_pre = self.state.grid@;
            let (dx, dy) = cells[i];
            proof {
                assert(c[i as int] == (dx as int, dy as int));
            }
            let cell_pos = BoardPosition { x: piece.position.x + dx, y: piece.position.y + dy };
            let res = self.fill_cell(cell_pos);
            proof {
                let cx = cell_pos.x as int;
                let cy = cell_pos.y as int;
                let g1 = self.state.grid@;
                let in_range = 0 <= cx < w && 0 <= cy < h;
                let fresh = in_range && !g_pre[cy * w + cx];
                if fresh {
                    // A fresh fill: one cell set, row cy counted one higher.
                    assert(g1 == g_pre.update(cy * w + cx, true));
                    lemma_row_count_missing(g_pre, w, cx, cy, w);
                    assert forall|x: int, y: int| 0 <= x < w && 0 <= y < h implies (
                    #[trigger] g1[y * w + x] <==> g_pre[y * w + x] || (x == cx && y == cy)) by {
                        lemma_idx_inj(w, x, y, cx, cy);
                        lemma_idx_range(w, h, x, y);
                        lemma_idx_range(w, h, cx, cy);
                    }
                } else {
                    assert(g1 == g_pre);
                }
                // Each fill changes at most one row count, by exactly one.
                assert forall|y2: int| 0 <= y2 < h implies row_count(g1, w, y2) == row_count(
                    g_pre,
                    w,
                    y2,
                ) + if fresh && y2 == cy {
                    1int
                } else {
                    0int
                } by {
                    if fresh {
                        lemma_row_count_set(g_pre, w, h, cx, cy, y2, w);
                    }
                }
                // The updated grid-change invariant.
                assert forall|x: int, y: int| 0 <= x < w && 0 <= y < h implies ((
                #[trigger] g0[y * w + x]) || covers_upto(c, px, py, x, y, i as int + 1)
                    <==> self.grid()[y * w + x]) by {
                    assert(g0[y * w + x] || covers_upto(c, px, py, x, y, i as int) <==> g_pre[y * w
                        + x]);
                    if self.grid()[y * w + x] {
                        if !g_pre[y * w + x] {
                            // Cell i itself was freshly filled here.
                            assert(x == cx && y == cy);
                            assert(px + c[i as int].0 == x && py + c[i as int].1 == y);
                            assert(covers_upto(c, px, py, x, y, i as int + 1));
                        } else {
                            if !g0[y * w + x] {
                                assert(covers_upto(c, px, py, x, y, i as int));
                                let j = choose|j: int|
                                    0 <= j < i as int && px + (#[trigger] c[j]).0 == x && py
                                        + c[j].1 == y;
                                assert(covers_upto(c, px, py, x, y, i as int + 1));
                            }
                        }
                    } else {
                        assert(!g_pre[y * w + x]);
                        assert(!g0[y * w + x]);
                        if covers_upto(c, px, py, x, y, i as int + 1) {
                            let j = choose|j: int|
                                0 <= j < i as int + 1 && px + (#[trigger] c[j]).0 == x && py
                                    + c[j].1 == y;
                            if j < i as int {
                                assert(covers_upto(c, px, py, x, y, i as int));
                                assert(false);
                            } else {
                                assert(px + c[i as int].0 == x && py + c[i as int].1 == y);
                                assert(x == cx && y == cy);
                                if in_range && !g_pre[cy * w + cx] {
                                    assert(self.grid()[y * w + x]);
                                } else {
                                    // The target was out of range (contradicting
                                    // 0 <= x < w, 0 <= y < h) or already filled
                                    // (contradicting !g_pre here).
                                    assert(false);
                                }
                                assert(false);
                            }
                        }
                    }
                }
                // Row counts never drop, so previously completed rows stay
                // completed and are never re-reported.
                assert forall|y2: int| 0 <= y2 < h implies row_count(g_pre, w, y2) <= row_count(
                    self.grid(),
                    w,
                    y2,
                ) by {
                    assert forall|k: int| 0 <= k < w implies (#[trigger] g_pre[y2 * w + k]
                        ==> self.grid()[y2 * w + k]) by {
                        lemma_idx_range(w, h, k, y2);
                        if in_range && !g_pre[cy * w + cx] {
                            assert(self.grid() == g_pre.update(cy * w + cx, true));
                        }
                    }
                    lemma_row_count_mono(g_pre, self.grid(), w, y2, w);
                }
                assert forall|y2: int| 0 <= y2 < h implies row_count(g0, w, y2) <= row_count(
                    g_pre,
                    w,
                    y2,
                ) by {
                    assert forall|k: int| 0 <= k < w implies (#[trigger] g0[y2 * w + k] ==> g_pre[y2
                        * w + k]) by {
                        lemma_idx_range(w, h, k, y2);
                        assert(g0[y2 * w + k] || covers_upto(c, px, py, k, y2, i as int)
                            <==> g_pre[y2 * w + k]);
                    }
                    lemma_row_count_mono(g0, g_pre, w, y2, w);
                }
            }
            let ghost rows_pre = rows@;
            if res == PlaceResult::RowFilled {
                proof {
                    let cx = cell_pos.x as int;
                    let cy = cell_pos.y as int;
                    // A row is reported only on the fresh fill that completes it.
                    assert(0 <= cx < w && 0 <= cy < h && !g_pre[cy * w + cx]);
                    assert(row_count(g_pre, w, cy) + 1 == w);
                    assert(row_count(self.grid(), w, cy) == w);
                    lemma_row_count_bounds(g0, w, cy, w);
                }
                rows.push(cell_pos.y);
                proof {
                    assert(rows@[rows@.len() - 1] == cell_pos.y);
                }
            }
            proof {
                let cx = cell_pos.x as int;
                let cy = cell_pos.y as int;
                let g1 = self.state.grid@;
                let in_range = 0 <= cx < w && 0 <= cy < h;
                let fresh = in_range && !g_pre[cy * w + cx];
                assert forall|y: int| 0 <= y < h && became_full(g0, g1, w, y) implies exists|k: int|
                    0 <= k < rows@.len() && (#[trigger] rows@[k]) as int == y by {
                    if fresh && y == cy {
                        // This very fill completed the row, so it was pushed.
                        assert(row_count(g1, w, cy) == row_count(g_pre, w, cy) + 1);
                        assert(res == PlaceResult::RowFilled);
                        assert(rows@[rows@.len() - 1] as int == y);
                    } else {
                        assert(row_count(g1, w, y) == row_count(g_pre, w, y));
                        assert(became_full(g0, g_pre, w, y));
                        let k = choose|k: int|
                            0 <= k < rows_pre.len() && (#[trigger] rows_pre[k]) as int == y;
                        assert(rows@[k] as int == y);
                    }
                }
            }
            i = i + 1;
        }
        let ghost rseq = rows@;
        proof {
            assert forall|x: int, y: int|
                0 <= x < old(self).width as int && 0 <= y < old(self).height as int implies (
            self.grid()[y * old(self).width as int + x] <==> old(self).grid()[y * old(
                self,
            ).width as int + x] || #[trigger] covers(c, px, py, x, y)) by {
                assert(g0[y * w + x] || covers_upto(c, px, py, x, y, 4) <==> self.grid()[y * w
                    + x]);
            }
            assert(commit_grid_rel(
                old(self).grid(),
                self.grid(),
                old(self).width as int,
                old(self).height as int,
                *piece,
            ));
            assert forall|y: int|
                0 <= y < old(self).height as int && #[trigger] became_full(
                    old(self).grid(),
                    self.grid(),
                    old(self).width as int,
                    y,
                ) implies exists|k: int|
                0 <= k < rseq.len() && (#[trigger] rseq[k]) as int == y by {
                assert(became_full(g0, self.grid(), w, y));
            }
        }
        if rows.len() == 0 {
            None
        } else {
            let result = Some(rows);
            proof {
                assert(result matches Some(v) && v@ == rseq);
                assert forall|y: int|
                    0 <= y < old(self).height as int && #[trigger] became_full(
                        old(self).grid(),
                        self.grid(),
                        old(self).width as int,
                        y,
                    ) implies exists|k: int|
                    0 <= k < result->0@.len() && (#[trigger] result->0@[k]) as int == y by {
                    let k0 = choose|k: int|
                        0 <= k < rseq.len() && (#[trigger] rseq[k]) as int == y;
                    assert(result->0@[k0] as int == y);
                }
            }
            result
        }
    }

    /// Some cell of the piece sits strictly below its column's stack top:
    /// the column height no longer reflects the nearest surface under the
    /// piece, so the fast drop estimate is unreliable.
    pub open spec fn below_overhang_at(self, piece: PieceInstance, px: int, py: int) -> bool {
        exists|i: int|
            0 <= i < piece.footprint().len() && 0 <= px + (#[trigger] piece.footprint()[i]).0
                < self.width as int && py + piece.footprint()[i].1 < col_height(
                self.grid(),
                self.width as int,
                self.height as int,
                px + piece.footprint()[i].0,
            ) - 1
    }

    /// Whether some cell of the piece, at its current position, lies below
    /// an overhang (empty space beneath its column's highest filled cell).
    fn is_below_overhang(&self, piece: &PieceInstance) -> (r: bool)
        requires
            self.wf(),
            piece.wf(),
            pos_arith_ok(piece.position),
        ensures
            r == self.below_overhang_at(*piece, piece.position.x as int, piece.position.y as int),
    {
        let ghost w = self.width as int;
        let ghost h = self.height as int;
        let ghost c = piece.footprint();
        let ghost px = piece.position.x as int;
        let ghost py = piece.position.y as int;
        proof {
            self.lemma_wf_dims();
            crate::piece::lemma_cells_bounds(piece.typ, piece.rot_idx as int % 4);
        }
        let cells = piece.cells();
        let mut i: usize = 0;
        while i < 4
            invariant
                self.wf(),
                piece.wf(),
                pos_arith_ok(piece.position),
                cells_view(cells@) == c,
                c == piece.footprint(),
                c.len() == 4,
                forall|k: int| 0 <= k < 4 ==> 0 <= (#[trigger] c[k]).0 <= 3 && 0 <= c[k].1 <= 3,
                w == self.width as int,
                h == self.height as int,
                px == piece.position.x as int,
                py == piece.position.y as int,
                i <= 4,
                forall|k: int|
                    0 <= k < i ==> !(0 <= px + (#[trigger] c[k]).0 < w && py + c[k].1 < col_height(
                        self.grid(),
                        w,
                        h,
                        px + c[k].0,
                    ) - 1),
            decreases 4 - i,
        {
            let (dx, dy) = cells[i];
            proof {
                assert(c[i as int] == (dx as int, dy as int));
            }
            let cx = piece.position.x + dx;
            let cy = piece.position.y + dy;
            if let Some(score) = self.col_score(cx) {
                proof {
                    lemma_col_height_bounds(self.grid(), w, cx as int, h);
                }
                if cy < score - 1 {
                    return true;
                }
            }
            i = i + 1;
        }
        false
    }

    /// A piece whose every cell sits at or above its column's stack height,
    /// within the board's vertical extent and with all columns in range, is
    /// legally placed: above a stack there are no filled cells.
    proof fn lemma_clear_above_stacks(self, cells: Seq<(int, int)>, px: int, py: int)
        requires
            self.wf(),
            forall|i: int|
                0 <= i < cells.len() ==> 0 <= px + (#[trigger] cells[i]).0 < self.width as int,
            forall|i: int|
                0 <= i < cells.len() ==> py + (#[trigger] cells[i]).1 >= col_height(
                    self.grid(),
                    self.width as int,
                    self.height as int,
                    px + cells[i].0,
                ),
            forall|i: int|
                0 <= i < cells.len() ==> py + (#[trigger] cells[i]).1 < self.height as int,
        ensures
            placement_legal(
                self.grid(),
                self.width as int,
                self.height as int,
                cells,
                px,
                py,
            ),
    {
        let g = self.grid();
        let w = self.width as int;
        let h = self.height as int;
        assert forall|i: int| 0 <= i < cells.len() implies 0 <= px + (#[trigger] cells[i]).0 < w
            && 0 <= py + cells[i].1 < h by {
            lemma_col_height_bounds(g, w, px + cells[i].0, h);
        }
        assert forall|i: int| 0 <= i < cells.len() implies !g[(py + (#[trigger] cells[i]).1) * w + (
        px + cells[i].0)] by {
            let x = px + cells[i].0;
            let y = py + cells[i].1;
            lemma_col_height_bounds(g, w, x, h);
            lemma_col_height_characterize(g, w, x, h);
            assert(col_height(g, w, h, x) <= y < h);
        }
    }

    /// Step the piece down one row at a time from its current position until
    /// placement fails, and return the last valid position: the slow,
    /// simulation-based drop used when the piece sits below an overhang.
    fn slow_calculate_drop(&self, piece: &PieceInstance) -> (r: (BoardPosition, PlaceResult))
        requires
            self.wf(),
            piece.wf(),
            pos_arith_ok(piece.position),
            self.placement_legal_at(*piece, piece.position.x as int, piece.position.y as int),
        ensures
            r.0.x == piece.position.x,
            pos_arith_ok(r.0),
            r.0.y as int <= piece.position.y as int,
            self.placement_legal_at(*piece, piece.position.x as int, r.0.y as int),
            !self.placement_legal_at(*piece, piece.position.x as int, r.0.y as int - 1),
            forall|y: int|
                r.0.y as int <= y <= piece.position.y as int ==> self.placement_legal_at(
                    *piece,
                    piece.position.x as int,
                    y,
                ),
            r.1 == self.place_result_at(*piece, r.0.x as int, r.0.y as int),
    {
        let ghost px = piece.position.x as int;
        let ghost c = piece.footprint();
        proof {
            crate::piece::lemma_cells_bounds(piece.typ, piece.rot_idx as int % 4);
            // A legal position keeps every cell at or above row 0, so the
            // origin never descends past -3.
            assert(piece.position.y as int + c[0].1 >= 0);
        }
        let mut y = piece.position.y;
        let mut res = self.try_place(piece, BoardPosition { x: piece.position.x, y: y - 1 });
        while res == PlaceResult::PlaceOk || res == PlaceResult::RowFilled
            invariant
                self.wf(),
                piece.wf(),
                pos_arith_ok(piece.position),
                c == piece.footprint(),
                c.len() == 4,
                forall|k: int| 0 <= k < 4 ==> 0 <= (#[trigger] c[k]).0 <= 3 && 0 <= c[k].1 <= 3,
                px == piece.position.x as int,
                y as int <= piece.position.y as int,
                y as int >= -3,
                self.placement_legal_at(*piece, px, y as int),
                forall|yy: int|
                    y as int <= yy <= piece.position.y as int ==> self.placement_legal_at(
                        *piece,
                        px,
                        yy,
                    ),
                res == self.place_result_at(*piece, px, y as int - 1),
            decreases y + 3,
        {
            y = y - 1;
            proof {
                assert(y as int + c[0].1 >= 0);
            }
            res = self.try_place(piece, BoardPosition { x: piece.position.x, y: y - 1 });
        }
        let pos = BoardPosition { x: piece.position.x, y };
        let final_res = self.try_place(piece, pos);
        (pos, final_res)
    }

    /// Take a drop estimate and correct it: test the position, and while it
    /// collides move up one row and test again. Returns the lowest legal
    /// position at or above the estimate (one exists at `top`).
    fn verify_drop_location(
        &self,
        piece: &PieceInstance,
        pos: BoardPosition,
        Ghost(top): Ghost<int>,
    ) -> (r: (BoardPosition, PlaceResult))
        requires
            self.wf(),
            piece.wf(),
            pos_arith_ok(pos),
            pos.y as int <= top,
            top + 8 <= isize::MAX as int,
            self.placement_legal_at(*piece, pos.x as int, top),
        ensures
            r.0.x == pos.x,
            pos_arith_ok(r.0),
            pos.y as int <= r.0.y as int <= top,
            self.placement_legal_at(*piece, pos.x as int, r.0.y as int),
            forall|y: int|
                pos.y as int <= y < r.0.y as int ==> !self.placement_legal_at(
                    *piece,
                    pos.x as int,
                    y,
                ),
            r.1 == self.place_result_at(*piece, r.0.x as int, r.0.y as int),
    {
        let mut y = pos.y;
        let mut res = self.try_place(piece, BoardPosition { x: pos.x, y });
        while !(res == PlaceResult::PlaceOk || res == PlaceResult::RowFilled)
            invariant
                self.wf(),
                piece.wf(),
                pos.y as int <= y as int <= top,
                top + 8 <= isize::MAX as int,
                pos_arith_ok(pos),
                self.placement_legal_at(*piece, pos.x as int, top),
                forall|yy: int|
                    pos.y as int <= yy < y as int ==> !self.placement_legal_at(
                        *piece,
                        pos.x as int,
                        yy,
                    ),
                res == self.place_result_at(*piece, pos.x as int, y as int),
            decreases top - y,
        {
            proof {
                // The known legal position bounds the climb.
                assert((y as int) < top);
            }
            y = y + 1;
            res = self.try_place(piece, BoardPosition { x: pos.x, y });
        }
        (BoardPosition { x: pos.x, y }, res)
    }

    /// Correctness of the fast drop estimate for a piece that is not below
    /// an overhang: every position from the estimate up to the current one
    /// is legal, one row below the estimate is not, and the estimate does
    /// not exceed the current position.
    #[verifier::rlimit(100)]
    proof fn lemma_fast_drop_estimate(self, piece: PieceInstance, est: int)
        requires
            self.wf(),
            piece.wf(),
            self.placement_legal_at(piece, piece.position.x as int, piece.position.y as int),
            !self.below_overhang_at(piece, piece.position.x as int, piece.position.y as int),
            forall|dx: int|
                piece_min_x(piece.typ, piece.rot_idx as int % 4) <= dx <= crate::piece::piece_max_x(
                    piece.typ,
                    piece.rot_idx as int % 4,
                ) && 0 <= piece.position.x as int + dx < self.width as int && (
                #[trigger] piece_skirt(piece.typ, piece.rot_idx as int % 4, dx))
                    < isize::MAX as int ==> est >= col_height(
                    self.grid(),
                    self.width as int,
                    self.height as int,
                    piece.position.x as int + dx,
                ) - piece_skirt(piece.typ, piece.rot_idx as int % 4, dx),
            exists|dx: int|
                piece_min_x(piece.typ, piece.rot_idx as int % 4) <= dx <= crate::piece::piece_max_x(
                    piece.typ,
                    piece.rot_idx as int % 4,
                ) && 0 <= piece.position.x as int + dx < self.width as int && (
                #[trigger] piece_skirt(piece.typ, piece.rot_idx as int % 4, dx))
                    < isize::MAX as int && est == col_height(
                    self.grid(),
                    self.width as int,
                    self.height as int,
                    piece.position.x as int + dx,
                ) - piece_skirt(piece.typ, piece.rot_idx as int % 4, dx),
        ensures
            est <= piece.position.y as int,
            forall|y: int|
                est <= y <= piece.position.y as int ==> self.placement_legal_at(
                    piece,
                    piece.position.x as int,
                    y,
                ),
            !self.placement_legal_at(piece, piece.position.x as int, est - 1),
    {
        let g = self.grid();
        let w = self.width as int;
        let h = self.height as int;
        let c = piece.footprint();
        let px = piece.position.x as int;
        let py = piece.position.y as int;
        let t = piece.typ;
        let rot = piece.rot_idx as int % 4;
        crate::piece::lemma_cells_bounds(t, rot);
        crate::piece::lemma_extent(t, rot);
        // Every cell clears its column's stack at any y from the estimate up
        // to the current position, so all those placements are legal.
        assert forall|y: int| est <= y <= py implies self.placement_legal_at(piece, px, y) by {
            assert forall|i: int| 0 <= i < c.len() implies y + (#[trigger] c[i]).1 >= col_height(
                g,
                w,
                h,
                px + c[i].0,
            ) by {
                let dx = c[i].0;
                crate::piece::lemma_skirt(t, rot, dx);
                assert(piece_skirt(t, rot, dx) <= c[i].1);
                assert(0 <= px + dx < w);
                assert(est >= col_height(g, w, h, px + dx) - piece_skirt(t, rot, dx));
            }
            assert forall|i: int| 0 <= i < c.len() implies y + (#[trigger] c[i]).1 < h by {
                assert(py + c[i].1 < h);
            }
            self.lemma_clear_above_stacks(c, px, y);
        }
        // One row below the estimate, the governing column collides or
        // leaves the grid.
        let dxg = choose|dx: int|
            piece_min_x(t, rot) <= dx <= crate::piece::piece_max_x(t, rot) && 0 <= px + dx < w && (
            #[trigger] piece_skirt(t, rot, dx)) < isize::MAX as int && est == col_height(
                g,
                w,
                h,
                px + dx,
            ) - piece_skirt(t, rot, dx);
        crate::piece::lemma_skirt(t, rot, dxg);
        let i0 = choose|i: int|
            0 <= i < 4 && (#[trigger] c[i]).0 == dxg && c[i].1 == piece_skirt(t, rot, dxg);
        let gx = px + dxg;
        let ch = col_height(g, w, h, gx);
        lemma_col_height_characterize(g, w, gx, h);
        lemma_col_height_bounds(g, w, gx, h);
        if ch > 0 {
            // The cell that attains the skirt would land on the stack top.
            assert(est - 1 + c[i0].1 == ch - 1);
            assert(g[(ch - 1) * w + gx]);
            assert(!placement_free(g, w, c, px, est - 1));
        } else {
            // The column is empty: one lower puts that cell below row 0.
            assert(est - 1 + c[i0].1 == -1);
            assert(!placement_in_bounds(w, h, c, px, est - 1));
        }
        assert(!self.placement_legal_at(piece, px, est - 1));
        // The estimate does not exceed the current position: above an
        // overhang-free piece every cell is at or above its column top.
        assert forall|i: int| 0 <= i < 4 implies py + (#[trigger] c[i]).1 >= col_height(
            g,
            w,
            h,
            px + c[i].0,
        ) by {
            let x = px + c[i].0;
            let chi = col_height(g, w, h, x);
            lemma_col_height_characterize(g, w, x, h);
            lemma_col_height_bounds(g, w, x, h);
            // Not below the overhang: py + dy >= chi - 1; equality would put
            // the cell on the column's top filled cell.
            assert(!(py + c[i].1 < chi - 1));
            if py + c[i].1 == chi - 1 {
                assert(g[(chi - 1) * w + x]);
                assert(!placement_free(g, w, c, px, py));
                assert(false);
            }
        }
        assert(est <= py) by {
            assert(py + c[i0].1 >= col_height(g, w, h, px + c[i0].0));
        }
    }

    /// Find the lowest position the piece can rest at in its current
    /// column, stepping down from its current position. The fast path reads
    /// the piece's skirt against the column heights in O(span); when the
    /// piece sits below an overhang (where the heights misrepresent the
    /// surface) a full step-down simulation is used instead, and every fast
    /// estimate is re-verified and corrected upward until it is legal.
    ///
    /// The returned position is on the piece's current vertical line, is
    /// legal, is reachable (every position between it and the current one
    /// is legal), and rests on something (one row further down is not
    /// legal). The returned result is the placement outcome there:
    /// `RowFilled` when committing there would complete a row, `PlaceOk`
    /// otherwise.
    #[verifier::rlimit(100)]
    #[verifier::spinoff_prover]
    pub fn calculate_drop(&self, piece: &PieceInstance) -> (r: (BoardPosition, PlaceResult))
        requires
            self.wf(),
            piece.wf(),
            pos_arith_ok(piece.position),
            self.placement_legal_at(*piece, piece.position.x as int, piece.position.y as int),
        ensures
            r.0.x == piece.position.x,
            pos_arith_ok(r.0),
            r.0.y as int <= piece.position.y as int,
            self.placement_legal_at(*piece, piece.position.x as int, r.0.y as int),
            !self.placement_legal_at(*piece, piece.position.x as int, r.0.y as int - 1),
            forall|y: int|
                r.0.y as int <= y <= piece.position.y as int ==> self.placement_legal_at(
                    *piece,
                    piece.position.x as int,
                    y,
                ),
            r.1 == self.place_result_at(*piece, r.0.x as int, r.0.y as int),
    {
        if self.is_below_overhang(piece) {
            return self.slow_calculate_drop(piece);
        }
        let ghost g = self.grid();
        let ghost w = self.width as int;
        let ghost h = self.height as int;
        let ghost c = piece.footprint();
        let ghost px = piece.position.x as int;
        let ghost py = piece.position.y as int;
        let ghost t = piece.typ;
        let ghost rot = piece.rot_idx as int % 4;
        proof {
            self.lemma_wf_dims();
            crate::piece::lemma_cells_bounds(t, rot);
            crate::piece::lemma_extent(t, rot);
        }
        let skirt = piece.typ.skirt(piece.rot_idx);
        let (min_dx, max_dx) = piece.typ.minmax_x(piece.rot_idx);
        let ghost minx = piece_min_x(t, rot);

        let mut max_required_y = isize::MIN;
        let mut x_offset: isize = 0;
        while x_offset <= max_dx - min_dx
            invariant
                self.wf(),
                piece.wf(),
                g == self.grid(),
                w == self.width as int,
                h == self.height as int,
                c == piece.footprint(),
                c.len() == 4,
                t == piece.typ,
                rot == piece.rot_idx as int % 4,
                minx == piece_min_x(t, rot),
                min_dx == minx,
                max_dx == crate::piece::piece_max_x(t, rot),
                0 <= minx <= crate::piece::piece_max_x(t, rot) <= 3,
                px == piece.position.x as int,
                py == piece.position.y as int,
                pos_arith_ok(piece.position),
                skirt@.len() == max_dx - min_dx + 1,
                forall|j: int|
                    0 <= j < skirt@.len() ==> #[trigger] skirt@[j] == piece_skirt(t, rot, minx + j),
                0 <= x_offset as int <= max_dx - min_dx + 1,
                max_required_y != isize::MIN ==> exists|j: int|
                    0 <= j < x_offset as int && 0 <= px + minx + j < w && (#[trigger] piece_skirt(
                        t,
                        rot,
                        minx + j,
                    )) < isize::MAX as int && max_required_y as int == col_height(
                        g,
                        w,
                        h,
                        px + minx + j,
                    ) - piece_skirt(t, rot, minx + j),
                forall|j: int|
                    0 <= j < x_offset as int && 0 <= px + minx + j < w && (#[trigger] piece_skirt(
                        t,
                        rot,
                        minx + j,
                    )) < isize::MAX as int ==> max_required_y as int >= col_height(
                        g,
                        w,
                        h,
                        px + minx + j,
                    ) - piece_skirt(t, rot, minx + j),
            decreases max_dx - min_dx + 1 - x_offset,
        {
            let board_x = piece.position.x + min_dx + x_offset;
            let skirt_val = skirt[x_offset as usize];
            if board_x >= 0 && board_x < self.width && skirt_val != isize::MAX {
                proof {
                    crate::piece::lemma_skirt(t, rot, minx + x_offset as int);
                    lemma_col_height_bounds(g, w, board_x as int, h);
                    // The skirt value here is attained by a cell, so it lies
                    // in [0, 3]; heights lie in [0, h]: the subtraction fits.
                    assert(0 <= piece_skirt(t, rot, minx + x_offset as int) <= 3);
                    assert(h <= w * h) by (nonlinear_arith)
                        requires
                            1 <= w,
                            1 <= h,
                    ;
                }
                let col = match self.col_score(board_x) {
                    Some(v) => v,
                    None => 0,
                };
                let required_y = if col == 0 {
                    0 - skirt_val
                } else {
                    col - skirt_val
                };
                if required_y > max_required_y {
                    max_required_y = required_y;
                }
            }
            x_offset = x_offset + 1;
        }
        proof {
            // The column of the piece's first cell is in bounds (the current
            // placement is legal) and touched by the piece, so some column
            // supplied an estimate.
            assert(0 <= px + c[0].0 < w && 0 <= py + c[0].1 < h);
            crate::piece::lemma_skirt(t, rot, c[0].0);
            let j0 = c[0].0 - minx;
            assert(0 <= j0 <= max_dx as int - min_dx as int);
            assert(piece_skirt(t, rot, minx + j0) == piece_skirt(t, rot, c[0].0));
            assert(piece_skirt(t, rot, minx + j0) < isize::MAX as int);
            lemma_col_height_bounds(g, w, px + minx + j0, h);
            assert(max_required_y as int >= col_height(g, w, h, px + minx + j0) - piece_skirt(
                t,
                rot,
                minx + j0,
            ));
            assert(max_required_y != isize::MIN);

            // Convert the per-offset facts of the scan into per-column facts
            // for the estimate lemma.
            assert forall|dx: int|
                minx <= dx <= crate::piece::piece_max_x(t, rot) && 0 <= px + dx < w && (
                #[trigger] piece_skirt(t, rot, dx)) < isize::MAX as int implies max_required_y as int
                >= col_height(g, w, h, px + dx) - piece_skirt(t, rot, dx) by {
                let j = dx - minx;
                assert(piece_skirt(t, rot, minx + j) == piece_skirt(t, rot, dx));
            }
            let jg = choose|j: int|
                0 <= j < (max_dx - min_dx + 1) as int && 0 <= px + minx + j < w && (
                #[trigger] piece_skirt(t, rot, minx + j)) < isize::MAX as int
                    && max_required_y as int == col_height(g, w, h, px + minx + j) - piece_skirt(
                    t,
                    rot,
                    minx + j,
                );
            assert(piece_skirt(t, rot, minx + jg) < isize::MAX as int && minx <= minx + jg
                <= crate::piece::piece_max_x(t, rot) && 0 <= px + minx + jg < w
                && max_required_y as int == col_height(g, w, h, px + (minx + jg)) - piece_skirt(
                t,
                rot,
                minx + jg,
            ));
            self.lemma_fast_drop_estimate(*piece, max_required_y as int);
        }
        let drop_position = BoardPosition { x: piece.position.x, y: max_required_y };
        let (rpos, rres) = self.verify_drop_location(piece, drop_position, Ghost(py));
        proof {
            // The estimate itself is legal, so the verification loop stops
            // right there; below it nothing is legal.
            assert(self.placement_legal_at(*piece, px, max_required_y as int));
            if (rpos.y as int) > max_required_y as int {
                assert(!self.placement_legal_at(*piece, px, max_required_y as int));
            }
            assert(rpos.y == max_required_y);
        }
        (rpos, rres)
    }

    /// Copy grid row `row` and its row score down onto row `target`,
    /// leaving every other row unchanged.
    fn slide_row_down(&mut self, row: usize, target: usize)
        requires
            1 <= old(self).width as int,
            1 <= old(self).height as int,
            old(self).width as int * old(self).height as int <= isize::MAX as int,
            old(self).grid().len() == old(self).width as int * old(self).height as int,
            old(self).rows().len() == old(self).height as int,
            target < row,
            (row as int) < old(self).height as int,
        ensures
            final (self).width == old(self).width,
            final (self).height == old(self).height,
            final (self).saved() == old(self).saved(),
            final (self).score_val() == old(self).score_val(),
            final (self).cols() == old(self).cols(),
            final (self).grid().len() == old(self).grid().len(),
            forall|x: int|
                0 <= x < old(self).width as int ==> #[trigger] final (self).grid()[target as int
                    * old(self).width as int + x] == old(self).grid()[row as int * old(
                    self,
                ).width as int + x],
            forall|y: int, x: int|
                0 <= y < old(self).height as int && 0 <= x < old(self).width as int && y
                    != target as int ==> #[trigger] final (self).grid()[y * old(self).width as int
                    + x] == old(self).grid()[y * old(self).width as int + x],
            final (self).rows() == old(self).rows().update(
                target as int,
                old(self).rows()[row as int],
            ),
    {
        let ghost w = self.width as int;
        let ghost h = self.height as int;
        let ghost g0 = self.state.grid@;
        let w_us = self.width as usize;
        let mut x: usize = 0;
        while x < w_us
            invariant
                w == self.width as int,
                h == self.height as int,
                w_us == w,
                1 <= w,
                1 <= h,
                w * h <= isize::MAX as int,
                self.state.grid@.len() == w * h,
                target < row,
                (row as int) < h,
                x <= w_us,
                self.width == old(self).width,
                self.height == old(self).height,
                self.saved_state == old(self).saved_state,
                self.score == old(self).score,
                self.state.col_score == old(self).state.col_score,
                self.state.row_score == old(self).state.row_score,
                g0 == old(self).grid(),
                g0.len() == w * h,
                forall|i: int|
                    0 <= i < g0.len() && !(target as int * w <= i < target as int * w + x as int)
                        ==> self.state.grid@[i] == g0[i],
                forall|x2: int|
                    0 <= x2 < x as int ==> #[trigger] self.state.grid@[target as int * w + x2]
                        == g0[row as int * w + x2],
            decreases w_us - x,
        {
            proof {
                lemma_idx_range(w, h, x as int, row as int);
                lemma_idx_range(w, h, x as int, target as int);
                lemma_idx_inj(w, x as int, row as int, x as int, target as int);
                // The source row lies entirely above the target row's cells.
                assert(row as int * w >= target as int * w + w) by (nonlinear_arith)
                    requires
                        (target as int) < row as int,
                        0 <= w,
                ;
            }
            let src_idx = row * w_us + x;
            let dst_idx = target * w_us + x;
            let v = self.state.grid[src_idx];
            self.state.grid.set(dst_idx, v);
            x = x + 1;
        }
        let score = self.state.row_score[row];
        self.state.row_score.set(target, score);
        proof {
            assert forall|y: int, x: int|
                0 <= y < h && 0 <= x < w && y != target as int implies #[trigger] self.state
                    .grid@[y * w + x] == g0[y * w + x] by {
                lemma_idx_range(w, h, x, y);
                if target as int * w <= y * w + x < target as int * w + w {
                    let x2 = y * w + x - target as int * w;
                    lemma_idx_inj(w, x, y, x2, target as int);
                }
            }
        }
    }

    /// Clear row `row` completely: empty its cells and zero its row score.
    fn clear_row(&mut self, row: usize)
        requires
            1 <= old(self).width as int,
            1 <= old(self).height as int,
            old(self).width as int * old(self).height as int <= isize::MAX as int,
            old(self).grid().len() == old(self).width as int * old(self).height as int,
            old(self).rows().len() == old(self).height as int,
            (row as int) < old(self).height as int,
        ensures
            final (self).width == old(self).width,
            final (self).height == old(self).height,
            final (self).saved() == old(self).saved(),
            final (self).score_val() == old(self).score_val(),
            final (self).cols() == old(self).cols(),
            final (self).grid().len() == old(self).grid().len(),
            forall|x: int|
                0 <= x < old(self).width as int ==> !(#[trigger] final (self).grid()[row as int
                    * old(self).width as int + x]),
            forall|y: int, x: int|
                0 <= y < old(self).height as int && 0 <= x < old(self).width as int && y
                    != row as int ==> #[trigger] final (self).grid()[y * old(self).width as int
                    + x] == old(self).grid()[y * old(self).width as int + x],
            final (self).rows() == old(self).rows().update(row as int, 0isize),
    {
        let ghost w = self.width as int;
        let ghost h = self.height as int;
        let ghost g0 = self.state.grid@;
        let w_us = self.width as usize;
        let mut x: usize = 0;
        while x < w_us
            invariant
                w == self.width as int,
                h == self.height as int,
                w_us == w,
                1 <= w,
                1 <= h,
                w * h <= isize::MAX as int,
                self.state.grid@.len() == w * h,
                (row as int) < h,
                x <= w_us,
                self.width == old(self).width,
                self.height == old(self).height,
                self.saved_state == old(self).saved_state,
                self.score == old(self).score,
                self.state.col_score == old(self).state.col_score,
                self.state.row_score == old(self).state.row_score,
                g0 == old(self).grid(),
                g0.len() == w * h,
                forall|i: int|
                    0 <= i < g0.len() && !(row as int * w <= i < row as int * w + x as int)
                        ==> self.state.grid@[i] == g0[i],
                forall|x2: int|
                    0 <= x2 < x as int ==> !(#[trigger] self.state.grid@[row as int * w + x2]),
            decreases w_us - x,
        {
            proof {
                lemma_idx_range(w, h, x as int, row as int);
            }
            let idx = row * w_us + x;
            self.state.grid.set(idx, false);
            x = x + 1;
        }
        self.state.reset_row_score(row);
        proof {
            assert forall|y: int, x: int|
                0 <= y < h && 0 <= x < w && y != row as int implies #[trigger] self.state.grid@[y
                    * w + x] == g0[y * w + x] by {
                lemma_idx_range(w, h, x, y);
                if row as int * w <= y * w + x < row as int * w + w {
                    let x2 = y * w + x - row as int * w;
                    lemma_idx_inj(w, x, y, x2, row as int);
                }
            }
        }
    }

    /// Recompute each column's score after clearing and sliding: scan
    /// downward from the column's last known height or the lowest cleared
    /// row (whichever is higher) to the first filled cell. Columns whose
    /// score was already 0 are untouched (they must be empty).
    fn adjust_col_scores(&mut self, lowest: isize)
        requires
            1 <= old(self).width as int,
            1 <= old(self).height as int,
            old(self).width as int * old(self).height as int <= isize::MAX as int,
            old(self).grid().len() == old(self).width as int * old(self).height as int,
            old(self).cols().len() == old(self).width as int,
            0 <= lowest as int && (lowest as int) < old(self).height as int,
            forall|x: int|
                0 <= x < old(self).width as int ==> 0 <= (#[trigger] old(self).cols()[x]) as int
                    && ((old(self).cols()[x]) as int) <= old(self).height as int,
            forall|x: int, y: int|
                0 <= x < old(self).width as int && y > (old(self).cols()[x]) as int - 1 && y
                    > lowest as int && y < old(self).height as int ==> !(#[trigger] old(
                    self,
                ).grid()[y * old(self).width as int + x]),
            forall|x: int, y: int|
                0 <= x < old(self).width as int && (old(self).cols()[x]) as int == 0 && 0 <= y < old(
                    self,
                ).height as int ==> !(#[trigger] old(self).grid()[y * old(self).width as int + x]),
        ensures
            final (self).width == old(self).width,
            final (self).height == old(self).height,
            final (self).saved() == old(self).saved(),
            final (self).score_val() == old(self).score_val(),
            final (self).grid() == old(self).grid(),
            final (self).rows() == old(self).rows(),
            final (self).cols().len() == old(self).cols().len(),
            forall|x: int|
                0 <= x < old(self).width as int ==> (#[trigger] final (self).cols()[x]) as int
                    == col_height(
                    old(self).grid(),
                    old(self).width as int,
                    old(self).height as int,
                    x,
                ),
    {
        let ghost w = self.width as int;
        let ghost h = self.height as int;
        let ghost g = self.state.grid@;
        let ghost cs0 = self.state.col_score@;
        let w_us = self.width as usize;
        let mut x: usize = 0;
        while x < w_us
            invariant
                w == self.width as int,
                h == self.height as int,
                w_us == w,
                1 <= w,
                1 <= h,
                w * h <= isize::MAX as int,
                g.len() == w * h,
                g == self.state.grid@,
                self.state.col_score@.len() == w,
                cs0.len() == w,
                0 <= lowest as int && (lowest as int) < h,
                x <= w_us,
                self.width == old(self).width,
                self.height == old(self).height,
                self.saved_state == old(self).saved_state,
                self.score == old(self).score,
                self.state.grid == old(self).state.grid,
                self.state.row_score == old(self).state.row_score,
                g == old(self).grid(),
                cs0 == old(self).cols(),
                forall|x2: int|
                    0 <= x2 < w ==> 0 <= (#[trigger] cs0[x2]) as int && ((cs0[x2]) as int) <= h,
                forall|x2: int, y: int|
                    0 <= x2 < w && y > (cs0[x2]) as int - 1 && y > lowest as int && y < h ==> !(
                    #[trigger] g[y * w + x2]),
                forall|x2: int, y: int|
                    0 <= x2 < w && (cs0[x2]) as int == 0 && 0 <= y < h ==> !(#[trigger] g[y * w
                        + x2]),
                forall|x2: int|
                    x as int <= x2 < w ==> #[trigger] self.state.col_score@[x2] == cs0[x2],
                forall|x2: int|
                    0 <= x2 < x as int ==> (#[trigger] self.state.col_score@[x2]) as int
                        == col_height(g, w, h, x2),
            decreases w_us - x,
        {
            let cs_x = self.state.col_score[x];
            if cs_x > 0 {
                let start = if cs_x - 1 > lowest {
                    cs_x - 1
                } else {
                    lowest
                };
                let mut y = start;
                let mut new_height: isize = 0;
                let mut searching = true;
                while searching && y >= 0
                    invariant
                        w == self.width as int,
                        h == self.height as int,
                        g == self.state.grid@,
                        g.len() == w * h,
                        1 <= w,
                        1 <= h,
                        w * h <= isize::MAX as int,
                        0 <= x as int && (x as int) < w,
                        0 <= (start as int) && (start as int) < h,
                        y <= start,
                        w_us == w,
                        searching ==> -1 <= y as int,
                        searching ==> new_height == 0,
                        searching ==> forall|yy: int|
                            (y as int) < yy <= start as int ==> !(#[trigger] g[yy * w + x as int]),
                        !searching ==> 0 <= y as int && g[y as int * w + x as int] && (forall|
                            yy: int,
                        |
                            (y as int) < yy <= start as int ==> !(#[trigger] g[yy * w + x as int]))
                            && new_height as int == y as int + 1,
                    decreases y + 1 + if searching {
                        1int
                    } else {
                        0int
                    },
                {
                    proof {
                        lemma_idx_range(w, h, x as int, y as int);
                    }
                    let idx = y as usize * w_us + x;
                    if self.state.grid[idx] {
                        new_height = y + 1;
                        searching = false;
                    } else {
                        y = y - 1;
                    }
                }
                proof {
                    if searching {
                        // The whole column below the start is empty, and so
                        // is everything above it.
                        assert forall|yy: int| 0 <= yy < h implies !(#[trigger] g[yy * w
                            + x as int]) by {
                            if yy <= start as int {
                            } else {
                                assert(yy > (cs0[x as int]) as int - 1 && yy > lowest as int);
                            }
                        }
                        lemma_col_height_skip_empty(g, w, x as int, 0, h);
                        assert(col_height(g, w, h, x as int) == 0);
                    } else {
                        assert forall|yy: int| y as int + 1 <= yy < h implies !(#[trigger] g[yy * w
                            + x as int]) by {
                            if yy <= start as int {
                            } else {
                                assert(yy > (cs0[x as int]) as int - 1 && yy > lowest as int);
                            }
                        }
                        lemma_col_height_skip_empty(g, w, x as int, y as int + 1, h);
                        assert(col_height_upto(g, w, x as int, y as int + 1) == y as int + 1);
                        assert(col_height(g, w, h, x as int) == new_height as int);
                    }
                }
                self.state.col_score.set(x, new_height);
            } else {
                proof {
                    assert forall|yy: int| 0 <= yy < h implies !(#[trigger] g[yy * w
                        + x as int]) by {}
                    lemma_col_height_skip_empty(g, w, x as int, 0, h);
                    assert(col_height(g, w, h, x as int) == 0);
                }
            }
            x = x + 1;
        }
    }

    /// Clear the listed completed rows and compact the grid: every kept row
    /// slides down by the number of cleared rows strictly below it, the
    /// vacated rows at the top become empty, and both scoring caches are
    /// restored to exactness. The listed rows must be distinct and within
    /// the grid; an empty list changes nothing.
    #[verifier::rlimit(100)]
    #[verifier::spinoff_prover]
    pub fn clear_rows(&mut self, rows: &Vec<isize>)
        requires
            old(self).wf(),
            rows_in_range(rows@, old(self).height as int),
            rows_distinct(rows@),
        ensures
            final (self).wf(),
            final (self).width == old(self).width,
            final (self).height == old(self).height,
            final (self).saved() == old(self).saved(),
            final (self).score_val() == old(self).score_val(),
            final (self).grid().len() == old(self).grid().len(),
            forall|r: int, x: int|
                0 <= r < old(self).height as int && !row_listed(rows@, r) && 0 <= x < old(
                    self,
                ).width as int ==> #[trigger] final (self).grid()[(r - cleared_below(rows@, r))
                    * old(self).width as int + x] == old(self).grid()[r * old(self).width as int
                    + x],
            forall|y: int, x: int|
                old(self).height as int - rows@.len() <= y < old(self).height as int && 0 <= x
                    < old(self).width as int ==> !(#[trigger] final (self).grid()[y * old(
                    self,
                ).width as int + x]),
    {
        let ghost rl = rows@;
        let ghost len = rows@.len() as int;
        let ghost g0 = self.state.grid@;
        let ghost rs0 = self.state.row_score@;
        let ghost cs0 = self.state.col_score@;
        let ghost w = self.width as int;
        let ghost h = self.height as int;
        proof {
            self.lemma_wf_dims();
            self.lemma_scores_exact();
        }
        if rows.len() == 0 {
            return;
        }
        proof {
            lemma_count_lt_zero(rl, 0, len);
        }
        let h_us = self.height as usize;
        let mut w_ptr: usize = 0;
        let mut r: usize = 0;
        // Phase 1: slide every kept row down onto the write pointer.
        while r < h_us
            invariant
                self.width == old(self).width,
                self.height == old(self).height,
                self.saved_state == old(self).saved_state,
                self.score == old(self).score,
                self.state.col_score@ == cs0,
                cs0 == old(self).cols(),
                w == self.width as int,
                h == self.height as int,
                h_us == h,
                1 <= w,
                1 <= h,
                w * h <= isize::MAX as int,
                self.state.grid@.len() == w * h,
                self.state.row_score@.len() == h,
                g0 == old(self).grid(),
                rs0 == old(self).rows(),
                g0.len() == w * h,
                rs0.len() == h,
                rl == rows@,
                rows_in_range(rl, h),
                rows_distinct(rl),
                rl.len() == len,
                1 <= len,
                forall|y: int| 0 <= y < h ==> (#[trigger] rs0[y]) as int == row_count(g0, w, y),
                r <= h_us,
                w_ptr <= r,
                w_ptr as int == r as int - cleared_below(rl, r as int),
                forall|y: int, x: int|
                    r as int <= y < h && 0 <= x < w ==> #[trigger] self.state.grid@[y * w + x]
                        == g0[y * w + x],
                forall|y: int|
                    r as int <= y < h ==> #[trigger] self.state.row_score@[y] == rs0[y],
                forall|rr: int, x: int|
                    0 <= rr < r as int && !row_listed(rl, rr) && 0 <= x < w ==> #[trigger] self
                        .state.grid@[(rr - cleared_below(rl, rr)) * w + x] == g0[rr * w + x],
                forall|rr: int|
                    0 <= rr < r as int && !row_listed(rl, rr) ==> #[trigger] self.state.row_score@[rr
                        - cleared_below(rl, rr)] == rs0[rr],
                forall|y: int|
                    0 <= y < w_ptr as int ==> (#[trigger] self.state.row_score@[y]) as int
                        == row_count(self.state.grid@, w, y),
                forall|y: int| 0 <= y < w_ptr as int ==> #[trigger] has_source(rl, y, r as int),
            decreases h_us - r,
        {
            let ghost g_pre = self.state.grid@;
            let ghost rs_pre = self.state.row_score@;
            let ghost wp0 = w_ptr as int;
            let keep = !rows_contains(rows, r as isize);
            proof {
                lemma_count_lt_step(rl, r as int, len);
                lemma_count_eq_bound(rl, r as int, len);
                lemma_count_lt_bounds(rl, r as int, len);
            }
            if keep {
                proof {
                    assert forall|rr: int| 0 <= rr < r as int && !row_listed(rl, rr) implies 0 <= rr
                        - cleared_below(rl, rr) < w_ptr as int by {
                        lemma_cleared_below_mono(rl, rr, r as int);
                        lemma_count_lt_zero(rl, 0, len);
                        lemma_cleared_below_mono(rl, 0, rr);
                    }
                }
                if w_ptr < r {
                    self.slide_row_down(r, w_ptr);
                    proof {
                        assert forall|y: int|
                            0 <= y < w_ptr as int + 1 implies (
                        #[trigger] self.state.row_score@[y]) as int == row_count(
                            self.state.grid@,
                            w,
                            y,
                        ) by {
                            if y < w_ptr as int {
                                assert forall|k: int| 0 <= k < w implies #[trigger] self.state
                                    .grid@[y * w + k] == g_pre[y * w + k] by {}
                                lemma_row_count_congruent(self.state.grid@, y, g_pre, y, w, w);
                            } else {
                                assert forall|k: int| 0 <= k < w implies #[trigger] self.state
                                    .grid@[y * w + k] == g0[r as int * w + k] by {}
                                lemma_row_count_congruent(self.state.grid@, y, g0, r as int, w, w);
                            }
                        }
                        assert(r as int - cleared_below(rl, r as int) == w_ptr as int);
                        assert forall|rr: int, x: int|
                            0 <= rr < r as int + 1 && !row_listed(rl, rr) && 0 <= x < w implies
                        #[trigger] self.state.grid@[(rr - cleared_below(rl, rr)) * w + x] == g0[rr
                            * w + x] by {
                            if rr < r as int {
                                assert(self.state.grid@[(rr - cleared_below(rl, rr)) * w + x]
                                    == g_pre[(rr - cleared_below(rl, rr)) * w + x]);
                            } else {
                                assert(self.state.grid@[w_ptr as int * w + x] == g_pre[r as int * w
                                    + x]);
                                assert(g_pre[r as int * w + x] == g0[r as int * w + x]);
                            }
                        }
                        assert forall|rr: int|
                            0 <= rr < r as int + 1 && !row_listed(rl, rr) implies #[trigger] self
                            .state.row_score@[rr - cleared_below(rl, rr)] == rs0[rr] by {
                            if rr < r as int {
                                assert(self.state.row_score@[rr - cleared_below(rl, rr)]
                                    == rs_pre[rr - cleared_below(rl, rr)]);
                            } else {
                                assert(self.state.row_score@[w_ptr as int] == rs_pre[r as int]);
                            }
                        }
                    }
                } else {
                    proof {
                        assert forall|k: int| 0 <= k < w implies #[trigger] self.state.grid@[
                        r as int * w + k] == g0[r as int * w + k] by {}
                        lemma_row_count_congruent(self.state.grid@, r as int, g0, r as int, w, w);
                        assert(r as int - cleared_below(rl, r as int) == w_ptr as int);
                        assert forall|rr: int, x: int|
                            0 <= rr < r as int + 1 && !row_listed(rl, rr) && 0 <= x < w implies
                        #[trigger] self.state.grid@[(rr - cleared_below(rl, rr)) * w + x] == g0[rr
                            * w + x] by {
                            if rr == r as int {
                                assert(self.state.grid@[r as int * w + x] == g0[r as int * w + x]);
                            }
                        }
                    }
                }
                w_ptr = w_ptr + 1;
            }
            proof {
                assert forall|y: int| 0 <= y < w_ptr as int implies #[trigger] has_source(
                    rl,
                    y,
                    r as int + 1,
                ) by {
                    if y < wp0 {
                        lemma_has_source_widen(rl, y, r as int, r as int + 1);
                    } else {
                        // The row processed in this iteration was kept and
                        // slid exactly onto the write pointer.
                        assert(y == wp0 && keep);
                        assert(y == r as int - cleared_below(rl, r as int));
                        assert(y <= r as int && !row_listed(rl, r as int));
                    }
                }
            }
            r = r + 1;
        }
        proof {
            lemma_cleared_below_all(rl, h, len);
            assert(w_ptr as int == h - len);
            assert forall|rr: int| 0 <= rr < h && !row_listed(rl, rr) implies 0 <= rr
                - cleared_below(rl, rr) < w_ptr as int by {
                lemma_cleared_below_mono(rl, rr, h);
                lemma_count_lt_zero(rl, 0, len);
                lemma_cleared_below_mono(rl, 0, rr);
            }
        }
        // Phase 2: empty the vacated rows at the top.
        let mut yc: usize = w_ptr;
        while yc < h_us
            invariant
                self.width == old(self).width,
                self.height == old(self).height,
                self.saved_state == old(self).saved_state,
                self.score == old(self).score,
                self.state.col_score@ == cs0,
                cs0 == old(self).cols(),
                w == self.width as int,
                h == self.height as int,
                h_us == h,
                1 <= w,
                1 <= h,
                w * h <= isize::MAX as int,
                self.state.grid@.len() == w * h,
                self.state.row_score@.len() == h,
                g0 == old(self).grid(),
                g0.len() == w * h,
                rl == rows@,
                rows_in_range(rl, h),
                rows_distinct(rl),
                rl.len() == len,
                1 <= len,
                w_ptr as int == h - len,
                w_ptr <= yc <= h_us,
                forall|rr: int|
                    0 <= rr < h && !row_listed(rl, rr) ==> 0 <= rr - (#[trigger] cleared_below(
                        rl,
                        rr,
                    )) < w_ptr as int,
                forall|rr: int, x: int|
                    0 <= rr < h && !row_listed(rl, rr) && 0 <= x < w ==> #[trigger] self.state
                        .grid@[(rr - cleared_below(rl, rr)) * w + x] == g0[rr * w + x],
                forall|y: int|
                    0 <= y < w_ptr as int ==> (#[trigger] self.state.row_score@[y]) as int
                        == row_count(self.state.grid@, w, y),
                forall|y: int| 0 <= y < w_ptr as int ==> #[trigger] has_source(rl, y, h),
                forall|y: int, x: int|
                    w_ptr as int <= y < yc as int && 0 <= x < w ==> !(#[trigger] self.state.grid@[y
                        * w + x]),
                forall|y: int|
                    w_ptr as int <= y < yc as int ==> #[trigger] self.state.row_score@[y] == 0,
            decreases h_us - yc,
        {
            let ghost g_pre = self.state.grid@;
            self.clear_row(yc);
            proof {
                assert forall|y: int|
                    0 <= y < w_ptr as int implies (#[trigger] self.state.row_score@[y]) as int
                    == row_count(self.state.grid@, w, y) by {
                    assert forall|k: int| 0 <= k < w implies #[trigger] self.state.grid@[y * w + k]
                        == g_pre[y * w + k] by {}
                    lemma_row_count_congruent(self.state.grid@, y, g_pre, y, w, w);
                }
                assert forall|rr: int, x: int|
                    0 <= rr < h && !row_listed(rl, rr) && 0 <= x < w implies #[trigger] self.state
                    .grid@[(rr - cleared_below(rl, rr)) * w + x] == g0[rr * w + x] by {
                    assert(self.state.grid@[(rr - cleared_below(rl, rr)) * w + x] == g_pre[(rr
                        - cleared_below(rl, rr)) * w + x]);
                }
            }
            yc = yc + 1;
        }
        // Phase 3: restore the column scores.
        let lowest = rows_min(rows);
        let ghost g2 = self.state.grid@;
        proof {
            let j = choose|j: int| 0 <= j < rl.len() && lowest == #[trigger] rl[j];
            assert(0 <= lowest as int && (lowest as int) < h);
            assert(self.state.col_score@ == cs0);
            assert forall|x: int, y: int|
                0 <= x < w && y > (cs0[x]) as int - 1 && y > lowest as int && y < h implies !(
            #[trigger] g2[y * w + x]) by {
                if y >= w_ptr as int {
                } else {
                    if y >= 0 {
                        assert(has_source(rl, y, h));
                        let rr = choose|rr: int|
                            y <= rr < h && !row_listed(rl, rr) && y == rr - (
                            #[trigger] cleared_below(rl, rr));
                        assert(g2[y * w + x] == g0[rr * w + x]);
                        lemma_col_height_characterize(g0, w, x, h);
                        assert((cs0[x]) as int == col_height(g0, w, h, x));
                        assert(col_height(g0, w, h, x) <= rr < h);
                        assert(!g0[rr * w + x]);
                    }
                }
            }
            assert forall|x: int, y: int|
                0 <= x < w && (cs0[x]) as int == 0 && 0 <= y < h implies !(#[trigger] g2[y * w
                    + x]) by {
                if y >= w_ptr as int {
                } else {
                    assert(has_source(rl, y, h));
                    let rr = choose|rr: int|
                        y <= rr < h && !row_listed(rl, rr) && y == rr - (#[trigger] cleared_below(
                            rl,
                            rr,
                        ));
                    assert(g2[y * w + x] == g0[rr * w + x]);
                    lemma_col_height_characterize(g0, w, x, h);
                    assert((cs0[x]) as int == col_height(g0, w, h, x));
                    assert(!g0[rr * w + x]);
                }
            }
            assert forall|x: int| 0 <= x < w implies 0 <= (#[trigger] cs0[x]) as int && ((
            cs0[x]) as int) <= h by {
                lemma_col_height_bounds(g0, w, x, h);
            }
        }
        self.adjust_col_scores(lowest);
        proof {
            // The caches are exact again: compacted rows kept their counts,
            // vacated rows are empty, and the column scores were recomputed.
            assert forall|y: int|
                0 <= y < h implies (#[trigger] self.state.row_score@[y]) as int == row_count(
                self.state.grid@,
                w,
                y,
            ) by {
                if y >= w_ptr as int {
                    assert forall|k: int| 0 <= k < w implies !(#[trigger] self.state.grid@[y * w
                        + k]) by {}
                    lemma_row_count_empty(self.state.grid@, w, y, w);
                }
            }
        }
    }

    /// The filled-cell count of row `row`, or `None` for an out-of-range
    /// row.
    pub fn row_score(&self, row: isize) -> (r: Option<isize>)
        requires
            self.wf(),
        ensures
            r matches Some(v) ==> 0 <= row as int && (row as int) < self.height as int && v as int == row_count(
                self.grid(),
                self.width as int,
                row as int,
            ),
            r is None <==> !(0 <= row as int && (row as int) < self.height as int),
    {
        if row >= self.height || row < 0 {
            return None;
        }
        proof {
            self.lemma_scores_exact();
            self.lemma_wf_dims();
        }
        Some(self.state.row_score[row as usize])
    }

    /// The stack height of column `col` (one above its highest filled cell,
    /// 0 if empty), or `None` for an out-of-range column.
    pub fn col_score(&self, col: isize) -> (r: Option<isize>)
        requires
            self.wf(),
        ensures
            r matches Some(v) ==> 0 <= col as int && (col as int) < self.width as int && v as int == col_height(
                self.grid(),
                self.width as int,
                self.height as int,
                col as int,
            ),
            r is None <==> !(0 <= col as int && (col as int) < self.width as int),
    {
        if col >= self.width || col < 0 {
            return None;
        }
        proof {
            self.lemma_scores_exact();
            self.lemma_wf_dims();
        }
        Some(self.state.col_score[col as usize])
    }

    /// All column stack heights, left to right.
    pub fn col_score_all(&self) -> (r: &Vec<isize>)
        ensures
            r@ == self.cols(),
    {
        &self.state.col_score
    }

    /// The accumulated score.
    pub fn score(&self) -> (r: usize)
        ensures
            r == self.score_val(),
    {
        self.score
    }

    /// Record a committed piece: a fixed award, doubled when the piece was
    /// hard-dropped. Saturates at the maximum score.
    pub fn score_piece(&mut self, hard_drop: bool)
        ensures
            final (self).score_val() == vstd::math::min(
                old(self).score_val() + if hard_drop {
                    20int
                } else {
                    10int
                },
                usize::MAX as int,
            ),
            final (self).grid() == old(self).grid(),
            final (self).rows() == old(self).rows(),
            final (self).cols() == old(self).cols(),
            final (self).saved() == old(self).saved(),
            final (self).width == old(self).width,
            final (self).height == old(self).height,
            old(self).wf() ==> final (self).wf(),
    {
        let award: usize = if hard_drop {
            20
        } else {
            10
        };
        if self.score <= usize::MAX - award {
            self.score = self.score + award;
        } else {
            self.score = usize::MAX;
        }
    }

    /// Record cleared rows: 100 points per row. Saturates at the maximum
    /// score.
    pub fn score_cleared_rows(&mut self, number_of_rows: usize)
        ensures
            final (self).score_val() == vstd::math::min(
                old(self).score_val() + number_of_rows as int * 100,
                usize::MAX as int,
            ),
            final (self).grid() == old(self).grid(),
            final (self).rows() == old(self).rows(),
            final (self).cols() == old(self).cols(),
            final (self).saved() == old(self).saved(),
            final (self).width == old(self).width,
            final (self).height == old(self).height,
            old(self).wf() ==> final (self).wf(),
    {
        if number_of_rows <= (usize::MAX / 100) {
            let award = number_of_rows * 100;
            if self.score <= usize::MAX - award {
                self.score = self.score + award;
                return;
            }
        }
        self.score = usize::MAX;
    }

    /// The piece as it would stand after one rotation step, before any
    /// legality check: same shape and position, next rotation index.
    pub open spec fn rotated_spec(piece: PieceInstance, direction: RotationDirection)
        -> PieceInstance {
        PieceInstance {
            typ: piece.typ,
            rot_idx: crate::piece_instance::next_rot(piece.rot_idx as int % 4, direction) as usize,
            position: piece.position,
        }
    }

    /// The ordered wall-kick offsets tried when rotating this piece one
    /// step in the given direction.
    pub open spec fn kicks_of(piece: PieceInstance, direction: RotationDirection) -> Seq<
        (int, int),
    > {
        kick_table(
            piece.typ,
            kick_index(
                piece.rot_idx as int,
                crate::piece_instance::next_rot(piece.rot_idx as int % 4, direction),
            ),
        )
    }

    /// Attempt to rotate the piece one step: try its rotated footprint at
    /// its current position, then at each wall-kick offset of its category
    /// in table order, and return the first position where the rotated
    /// footprint is legal, or `None` when every kick fails (the rotation is
    /// then rejected and the piece keeps its rotation and position).
    pub fn try_rotation(&self, piece: &PieceInstance, direction: RotationDirection) -> (r: Option<
        BoardPosition,
    >)
        requires
            self.wf(),
            piece.wf(),
            pos_arith_ok(piece.position),
        ensures
            r matches Some(p) ==> exists|k: int|
                0 <= k < Self::kicks_of(*piece, direction).len() && p.x as int == piece.position.x
                    as int + (#[trigger] Self::kicks_of(*piece, direction)[k]).0 && p.y as int
                    == piece.position.y as int + Self::kicks_of(*piece, direction)[k].1
                    && self.placement_legal_at(
                    Self::rotated_spec(*piece, direction),
                    p.x as int,
                    p.y as int,
                ) && (forall|j: int|
                    0 <= j < k ==> !self.placement_legal_at(
                        Self::rotated_spec(*piece, direction),
                        piece.position.x as int + (#[trigger] Self::kicks_of(*piece, direction)[j]).0,
                        piece.position.y as int + Self::kicks_of(*piece, direction)[j].1,
                    )),
            r is None ==> forall|j: int|
                0 <= j < Self::kicks_of(*piece, direction).len() ==> !self.placement_legal_at(
                    Self::rotated_spec(*piece, direction),
                    piece.position.x as int + (#[trigger] Self::kicks_of(*piece, direction)[j]).0,
                    piece.position.y as int + Self::kicks_of(*piece, direction)[j].1,
                ),
    {
        let ghost ks = Self::kicks_of(*piece, direction);
        let ghost rp = Self::rotated_spec(*piece, direction);
        let mut rotated = *piece;
        rotated.rotate(direction);
        proof {
            assert(rotated == rp);
        }
        let kicks = wall_kick_offsets(piece.typ, piece.rot_idx, rotated.rot_idx);
        proof {
            assert(cells_view(kicks@) == ks);
            crate::wall_kick::lemma_kick_bounds(
                piece.typ,
                kick_index(piece.rot_idx as int, rotated.rot_idx as int),
            );
        }
        let mut k: usize = 0;
        while k < kicks.len()
            invariant
                self.wf(),
                piece.wf(),
                rotated.wf(),
                rotated == rp,
                pos_arith_ok(piece.position),
                cells_view(kicks@) == ks,
                ks == Self::kicks_of(*piece, direction),
                rp == Self::rotated_spec(*piece, direction),
                kicks@.len() == ks.len(),
                forall|j: int|
                    0 <= j < ks.len() ==> -2 <= (#[trigger] ks[j]).0 <= 2 && -2 <= ks[j].1 <= 2,
                k <= kicks@.len(),
                forall|j: int|
                    0 <= j < k ==> !self.placement_legal_at(
                        rp,
                        piece.position.x as int + (#[trigger] ks[j]).0,
                        piece.position.y as int + ks[j].1,
                    ),
            decreases kicks@.len() - k,
        {
            let (dx, dy) = kicks[k];
            proof {
                assert(ks[k as int] == (dx as int, dy as int));
            }
            let pos = BoardPosition { x: piece.position.x + dx, y: piece.position.y + dy };
            let result = self.try_place(&rotated, pos);
            if result == PlaceResult::PlaceOk || result == PlaceResult::RowFilled {
                return Some(pos);
            }
            k = k + 1;
        }
        None
    }

    /// Snapshot the full grid and scores for a later `resume_state`. The
    /// snapshot is an owned deep copy, independent of the live state.
    pub fn save_state(&mut self)
        requires
            old(self).wf(),
        ensures
            final (self).wf(),
            final (self).saved() matches Some(s) && s.grid@ == old(self).grid() && s.row_score@
                == old(self).rows() && s.col_score@ == old(self).cols(),
            final (self).grid() == old(self).grid(),
            final (self).rows() == old(self).rows(),
            final (self).cols() == old(self).cols(),
            final (self).score_val() == old(self).score_val(),
            final (self).width == old(self).width,
            final (self).height == old(self).height,
    {
        let grid = self.state.grid.clone();
        let row_score = self.state.row_score.clone();
        let col_score = self.state.col_score.clone();
        proof {
            assert(grid@ =~= self.state.grid@);
            assert(row_score@ =~= self.state.row_score@);
            assert(col_score@ =~= self.state.col_score@);
        }
        self.saved_state = Some(BoardState { grid, row_score, col_score });
    }

    /// Restore the grid and scores from the saved snapshot, bit-for-bit.
    /// Does nothing when no snapshot exists. The snapshot is kept.
    pub fn resume_state(&mut self)
        requires
            old(self).wf(),
        ensures
            final (self).wf(),
            old(self).saved() matches Some(s) ==> final (self).grid() == s.grid@ && final (
            self).rows() == s.row_score@ && final (self).cols() == s.col_score@,
            old(self).saved() is None ==> final (self).grid() == old(self).grid() && final (
            self).rows() == old(self).rows() && final (self).cols() == old(self).cols(),
            final (self).saved() == old(self).saved(),
            final (self).score_val() == old(self).score_val(),
            final (self).width == old(self).width,
            final (self).height == old(self).height,
    {
        if let Some(state) = &self.saved_state {
            let grid = state.grid.clone();
            let row_score = state.row_score.clone();
            let col_score = state.col_score.clone();
            proof {
                assert(grid@ =~= state.grid@);
                assert(row_score@ =~= state.row_score@);
                assert(col_score@ =~= state.col_score@);
            }
            self.state = BoardState { grid, row_score, col_score };
        }
    }
}

/// Grid `g` with the first `k` cells of the footprint set.
pub open spec fn set_cells(
    g: Seq<bool>,
    w: int,
    cells: Seq<(int, int)>,
    px: int,
    py: int,
    k: int,
) -> Seq<bool>
    decreases k,
{
    if k <= 0 {
        g
    } else {
        set_cells(g, w, cells, px, py, k - 1).update(
            (py + cells[k - 1].1) * w + (px + cells[k - 1].0),
            true,
        )
    }
}

proof fn lemma_set_cells_len(
    g: Seq<bool>,
    w: int,
    h: int,
    cells: Seq<(int, int)>,
    px: int,
    py: int,
    k: int,
)
    requires
        g.len() == w * h,
        cells.len() == 4,
        0 <= k <= 4,
        placement_in_bounds(w, h, cells, px, py),
    ensures
        set_cells(g, w, cells, px, py, k).len() == g.len(),
    decreases k,
{
    if k > 0 {
        lemma_set_cells_len(g, w, h, cells, px, py, k - 1);
        lemma_idx_range(w, h, px + cells[k - 1].0, py + cells[k - 1].1);
    }
}

proof fn lemma_cells_in_row_bounds(cells: Seq<(int, int)>, dy: int, n: int)
    ensures
        0 <= cells_in_row_upto(cells, dy, n) <= if n >= 0 {
            n
        } else {
            0
        },
    decreases n,
{
    if n > 0 {
        lemma_cells_in_row_bounds(cells, dy, n - 1);
    }
}

proof fn lemma_cells_in_row_lower(cells: Seq<(int, int)>, dy: int, i: int, n: int)
    requires
        0 <= i < n,
        cells[i].1 == dy,
    ensures
        cells_in_row_upto(cells, dy, n) >= 1,
    decreases n,
{
    lemma_cells_in_row_bounds(cells, dy, n - 1);
    if i < n - 1 {
        lemma_cells_in_row_lower(cells, dy, i, n - 1);
    }
}

proof fn lemma_cells_in_row_exists(cells: Seq<(int, int)>, dy: int, n: int)
    requires
        cells_in_row_upto(cells, dy, n) > 0,
    ensures
        exists|j: int| 0 <= j < n && (#[trigger] cells[j]).1 == dy,
    decreases n,
{
    if n > 0 {
        if cells[n - 1].1 == dy {
            assert(0 <= n - 1 < n && cells[n - 1].1 == dy);
        } else {
            lemma_cells_in_row_exists(cells, dy, n - 1);
        }
    }
}

/// Setting a legal, duplicate-free footprint cell by cell raises each row
/// count by exactly the number of footprint cells in that row, and the
/// cells not yet set stay empty.
proof fn lemma_set_cells_count(
    g: Seq<bool>,
    w: int,
    h: int,
    cells: Seq<(int, int)>,
    px: int,
    py: int,
    k: int,
    y: int,
)
    requires
        g.len() == w * h,
        cells.len() == 4,
        0 <= k <= 4,
        0 <= y < h,
        placement_in_bounds(w, h, cells, px, py),
        placement_free(g, w, cells, px, py),
        forall|i: int, j: int| 0 <= i < j < 4 ==> #[trigger] cells[i] != #[trigger] cells[j],
    ensures
        set_cells(g, w, cells, px, py, k).len() == g.len(),
        row_count(set_cells(g, w, cells, px, py, k), w, y) == row_count(g, w, y)
            + cells_in_row_upto(cells, y - py, k),
        forall|j: int|
            k <= j < 4 ==> !(#[trigger] set_cells(g, w, cells, px, py, k)[(py + cells[j].1) * w + (
            px + cells[j].0)]),
    decreases k,
{
    lemma_set_cells_len(g, w, h, cells, px, py, k);
    if k > 0 {
        lemma_set_cells_count(g, w, h, cells, px, py, k - 1, y);
        let gk1 = set_cells(g, w, cells, px, py, k - 1);
        let cx = px + cells[k - 1].0;
        let cy = py + cells[k - 1].1;
        lemma_idx_range(w, h, cells[k - 1].0 + px, cells[k - 1].1 + py);
        assert(gk1.len() == w * h);
        // The cell set at this step was still empty.
        assert(!gk1[cy * w + cx]);
        lemma_row_count_set(gk1, w, h, cx, cy, y, w);
        // Later cells live at different indices, so they stay empty.
        assert forall|j: int| k <= j < 4 implies !(#[trigger] set_cells(g, w, cells, px, py, k)[(py
            + cells[j].1) * w + (px + cells[j].0)]) by {
            lemma_idx_inj(w, px + cells[j].0, py + cells[j].1, cx, cy);
            lemma_idx_range(w, h, px + cells[j].0, py + cells[j].1);
            lemma_idx_range(w, h, cx, cy);
        }
    }
}

/// Cell by cell, setting the footprint yields exactly the committed grid.
proof fn lemma_set_cells_pointwise(
    g: Seq<bool>,
    w: int,
    h: int,
    cells: Seq<(int, int)>,
    px: int,
    py: int,
    k: int,
    x: int,
    y: int,
)
    requires
        g.len() == w * h,
        cells.len() == 4,
        0 <= k <= 4,
        0 <= x < w,
        0 <= y < h,
        placement_in_bounds(w, h, cells, px, py),
    ensures
        set_cells(g, w, cells, px, py, k)[y * w + x] <==> g[y * w + x] || covers_upto(
            cells,
            px,
            py,
            x,
            y,
            k,
        ),
    decreases k,
{
    if k > 0 {
        lemma_set_cells_pointwise(g, w, h, cells, px, py, k - 1, x, y);
        lemma_set_cells_len(g, w, h, cells, px, py, k - 1);
        let cx = px + cells[k - 1].0;
        let cy = py + cells[k - 1].1;
        lemma_idx_inj(w, x, y, cx, cy);
        lemma_idx_range(w, h, x, y);
        lemma_idx_range(w, h, cx, cy);
        if set_cells(g, w, cells, px, py, k)[y * w + x] {
            if !(g[y * w + x] || covers_upto(cells, px, py, x, y, k - 1)) {
                assert(x == cx && y == cy);
                assert(covers_upto(cells, px, py, x, y, k));
            } else {
                if !g[y * w + x] {
                    let j = choose|j: int|
                        0 <= j < k - 1 && px + (#[trigger] cells[j]).0 == x && py + cells[j].1
                            == y;
                    assert(covers_upto(cells, px, py, x, y, k));
                }
            }
        } else {
            if covers_upto(cells, px, py, x, y, k) {
                let j = choose|j: int|
                    0 <= j < k && px + (#[trigger] cells[j]).0 == x && py + cells[j].1 == y;
                if j < k - 1 {
                    assert(covers_upto(cells, px, py, x, y, k - 1));
                }
                assert(false);
            }
        }
    }
}

/// Law: the read-only row-completion lookahead of `try_place` agrees with
/// `commit_piece`. For a legal placement, `try_place` reports `RowFilled`
/// exactly when committing the piece there returns completed rows. The
/// premises about `post` and `rows` are `commit_piece`'s postconditions.
pub proof fn lemma_lookahead_predicts_commit(
    pre: Board,
    post: Board,
    piece: PieceInstance,
    rows: Option<Vec<isize>>,
)
    requires
        pre.wf(),
        piece.wf(),
        pre.placement_legal_at(piece, piece.position.x as int, piece.position.y as int),
        post.width == pre.width,
        post.height == pre.height,
        post.grid().len() == pre.grid().len(),
        commit_grid_rel(pre.grid(), post.grid(), pre.width as int, pre.height as int, piece),
        rows matches Some(rs) ==> rs@.len() > 0 && forall|k: int|
            0 <= k < rs@.len() ==> 0 <= (#[trigger] rs@[k]) as int && ((rs@[k]) as int)
                < pre.height as int && became_full(
                pre.grid(),
                post.grid(),
                pre.width as int,
                rs@[k] as int,
            ),
        rows is None ==> forall|y: int|
            0 <= y < pre.height as int ==> !(#[trigger] became_full(
                pre.grid(),
                post.grid(),
                pre.width as int,
                y,
            )),
    ensures
        (pre.place_result_at(piece, piece.position.x as int, piece.position.y as int)
            is RowFilled) <==> rows is Some,
{
    let g0 = pre.grid();
    let g1 = post.grid();
    let w = pre.width as int;
    let h = pre.height as int;
    let c = piece.footprint();
    let px = piece.position.x as int;
    let py = piece.position.y as int;
    crate::piece::lemma_cells_bounds(piece.typ, piece.rot_idx as int % 4);
    crate::piece::lemma_cells_distinct(piece.typ, piece.rot_idx as int % 4);
    pre.lemma_wf_dims();
    // The committed grid equals the footprint set cell by cell, so each row
    // count rises by exactly the footprint cells it holds.
    assert forall|y: int| 0 <= y < h implies row_count(g1, w, y) == row_count(g0, w, y)
        + cells_in_row(c, y - py) by {
        lemma_set_cells_count(g0, w, h, c, px, py, 4, y);
        assert forall|x: int| 0 <= x < w implies #[trigger] set_cells(g0, w, c, px, py, 4)[y * w
            + x] == g1[y * w + x] by {
            lemma_set_cells_pointwise(g0, w, h, c, px, py, 4, x, y);
            lemma_idx_range(w, h, x, y);
            assert(covers(c, px, py, x, y) == covers_upto(c, px, py, x, y, 4));
        }
        lemma_row_count_congruent(set_cells(g0, w, c, px, py, 4), y, g1, y, w, w);
    }
    if pre.place_result_at(piece, px, py) is RowFilled {
        let i = choose|i: int|
            0 <= i < c.len() && row_count(g0, w, py + (#[trigger] c[i]).1) + cells_in_row(
                c,
                c[i].1,
            ) == w;
        let y = py + c[i].1;
        lemma_cells_in_row_lower(c, c[i].1, i, 4);
        lemma_row_count_bounds(g0, w, y, w);
        assert(became_full(g0, g1, w, y));
        assert(rows is Some);
    }
    if rows is Some {
        let rs = rows->0;
        assert(became_full(g0, g1, w, rs@[0] as int));
        let y = rs@[0] as int;
        assert(cells_in_row(c, y - py) > 0);
        lemma_cells_in_row_exists(c, y - py, 4);
        let j = choose|j: int| 0 <= j < 4 && (#[trigger] c[j]).1 == y - py;
        assert(row_count(g0, w, py + c[j].1) + cells_in_row(c, c[j].1) == w);
        assert(placement_fills_row(g0, w, c, px, py));
    }
}

/// Law: on an empty board, a piece of any type and rotation dropped on its
/// current vertical line comes to rest with its lowest cell exactly on row
/// 0 -- never above it, never colliding. The two placement premises are
/// what `calculate_drop` ensures of the position it returns.
pub proof fn lemma_drop_on_empty_board(b: Board, piece: PieceInstance, y: int)
    requires
        b.wf(),
        piece.wf(),
        forall|i: int| 0 <= i < b.grid().len() ==> !(#[trigger] b.grid()[i]),
        b.placement_legal_at(piece, piece.position.x as int, y),
        !b.placement_legal_at(piece, piece.position.x as int, y - 1),
    ensures
        forall|i: int| 0 <= i < 4 ==> y + (#[trigger] piece.footprint()[i]).1 >= 0,
        exists|i: int| 0 <= i < 4 && y + (#[trigger] piece.footprint()[i]).1 == 0,
{
    let c = piece.footprint();
    let w = b.width as int;
    let h = b.height as int;
    let px = piece.position.x as int;
    crate::piece::lemma_cells_bounds(piece.typ, piece.rot_idx as int % 4);
    b.lemma_wf_dims();
    // One row lower, the placement cannot collide on an empty board, so it
    // must leave the grid -- and only through the floor.
    if placement_in_bounds(w, h, c, px, y - 1) {
        assert forall|i: int| 0 <= i < c.len() implies !b.grid()[(y - 1 + (#[trigger] c[i]).1) * w
            + (px + c[i].0)] by {
            lemma_idx_range(w, h, px + c[i].0, y - 1 + c[i].1);
        }
        assert(placement_free(b.grid(), w, c, px, y - 1));
        assert(false);
    }
    let i = choose|i: int|
        0 <= i < c.len() && !(0 <= px + (#[trigger] c[i]).0 < w && 0 <= y - 1 + c[i].1 < h);
    assert(0 <= px + c[i].0 < w && 0 <= y + c[i].1 < h);
    assert(y + c[i].1 == 0);
}

/// Law: a snapshot taken by `save_state`, carried unchanged through any
/// later board mutation, is restored bit-for-bit (grid, row scores and
/// column scores) by `resume_state`. The three premises are the relevant
/// postconditions of `save_state`, of the interleaved mutators (none
/// touches the snapshot), and of `resume_state`.
pub proof fn lemma_save_resume_round_trip(after_save: Board, mutated: Board, resumed: Board)
    requires
        after_save.saved() matches Some(s) && s.grid@ == after_save.grid() && s.row_score@
            == after_save.rows() && s.col_score@ == after_save.cols(),
        mutated.saved() == after_save.saved(),
        mutated.saved() matches Some(s) ==> resumed.grid() == s.grid@ && resumed.rows()
            == s.row_score@ && resumed.cols() == s.col_score@,
    ensures
        resumed.grid() == after_save.grid(),
        resumed.rows() == after_save.rows(),
        resumed.cols() == after_save.cols(),
{
}

impl BoardState {
    /// An empty state for a grid of the given dimensions.
    pub fn new(width: usize, height: usize) -> (s: Self)
        requires
            width * height <= usize::MAX as int,
        ensures
            s.grid@.len() == width * height,
            s.row_score@.len() == height,
            s.col_score@.len() == width,
            forall|i: int| 0 <= i < s.grid@.len() ==> !(#[trigger] s.grid@[i]),
            forall|y: int| 0 <= y < height ==> #[trigger] s.row_score@[y] == 0,
            forall|x: int| 0 <= x < width ==> #[trigger] s.col_score@[x] == 0,
    {
        Self {
            grid: repeat_val(width * height, false),
            row_score: repeat_val(height, 0),
            col_score: repeat_val(width, 0),
        }
    }

    /// Set the filled-cell count of row `row` back to zero.
    pub fn reset_row_score(&mut self, row: usize)
        requires
            row < old(self).row_score@.len(),
        ensures
            final (self).row_score@ == old(self).row_score@.update(row as int, 0isize),
            final (self).grid == old(self).grid,
            final (self).col_score == old(self).col_score,
    {
        self.row_score.set(row, 0);
    }

    /// Count one more filled cell in the row of `pos`, returning the new
    /// count.
    pub fn update_row_score(&mut self, pos: BoardPosition) -> (r: isize)
        requires
            0 <= pos.y as int && (pos.y as int) < old(self).row_score@.len(),
            old(self).row_score@[pos.y as int] < isize::MAX,
        ensures
            final (self).row_score@ == old(self).row_score@.update(
                pos.y as int,
                (old(self).row_score@[pos.y as int] + 1) as isize,
            ),
            r as int == old(self).row_score@[pos.y as int] + 1,
            final (self).grid == old(self).grid,
            final (self).col_score == old(self).col_score,
    {
        let y = pos.y as usize;
        let v = self.row_score[y] + 1;
        self.row_score.set(y, v);
        v
    }

    /// Raise the stack height of the column of `pos` to cover `pos`, when it
    /// does not already.
    pub fn update_col_score(&mut self, pos: BoardPosition)
        requires
            0 <= pos.x as int && (pos.x as int) < old(self).col_score@.len(),
            0 <= pos.y as int && (pos.y as int) < isize::MAX,
        ensures
            final (self).col_score@ == old(self).col_score@.update(
                pos.x as int,
                if old(self).col_score@[pos.x as int] as int <= pos.y as int {
                    (pos.y + 1) as isize
                } else {
                    old(self).col_score@[pos.x as int]
                },
            ),
            final (self).grid == old(self).grid,
            final (self).row_score == old(self).row_score,
    {
        let x = pos.x as usize;
        if pos.y >= self.col_score[x] {
            self.col_score.set(x, pos.y + 1);
        } else {
            proof {
                assert(final (self).col_score@ =~= old(self).col_score@.update(
                    pos.x as int,
                    old(self).col_score@[pos.x as int],
                ));
            }
        }
    }
}

} // verus!
