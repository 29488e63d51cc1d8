//! The piece catalog: the seven tetromino shapes, their four rotation states,
//! and the derived geometry queries (skirt, horizontal span, vertical extent).
//!
//! Every rotation state is a set of four cell offsets relative to the piece's
//! bottom-left origin; all offsets lie in [0, 3].

use vstd::prelude::*;

verus! {

/// The seven tetromino shapes.
#[derive(Debug, Copy, Clone, PartialEq, Eq, Structural)]
pub enum PieceType {
    I,
    J,
    L,
    S,
    Z,
    T,
    O,
}

/// The four cell offsets of a piece shape in a given rotation state,
/// as mathematical integer pairs. The rotation index is taken modulo 4.
pub open spec fn cells_of(t: PieceType, r: int) -> Seq<(int, int)> {
    let ri = if 0 <= r < 4 { r } else { 0 } ;
    match t {
        PieceType::I => {
            if ri == 0 { seq![(0, 0), (1, 0), (2, 0), (3, 0)] }
            else if ri == 1 { seq![(2, 0), (2, 1), (2, 2), (2, 3)] }
            else if ri == 2 { seq![(0, 1), (1, 1), (2, 1), (3, 1)] }
            else { seq![(1, 0), (1, 1), (1, 2), (1, 3)] }
        },
        PieceType::J => {
            if ri == 0 { seq![(0, 0), (0, 1), (1, 1), (2, 1)] }
            else if ri == 1 { seq![(1, 0), (2, 0), (1, 1), (1, 2)] }
            else if ri == 2 { seq![(0, 1), (1, 1), (2, 1), (2, 2)] }
            else { seq![(1, 0), (1, 1), (0, 2), (1, 2)] }
        },
        PieceType::L => {
            if ri == 0 { seq![(0, 1), (1, 1), (2, 1), (2, 0)] }
            else if ri == 1 { seq![(1, 0), (1, 1), (1, 2), (2, 2)] }
            else if ri == 2 { seq![(0, 1), (0, 2), (1, 1), (2, 1)] }
            else { seq![(0, 0), (1, 0), (1, 1), (1, 2)] }
        },
        PieceType::S => {
            if ri == 0 { seq![(1, 0), (2, 0), (0, 1), (1, 1)] }
            else if ri == 1 { seq![(1, 0), (1, 1), (2, 1), (2, 2)] }
            else if ri == 2 { seq![(1, 1), (2, 1), (0, 2), (1, 2)] }
            else { seq![(0, 0), (0, 1), (1, 1), (1, 2)] }
        },
        PieceType::Z => {
            if ri == 0 { seq![(0, 0), (1, 0), (1, 1), (2, 1)] }
            else if ri == 1 { seq![(2, 0), (1, 1), (2, 1), (1, 2)] }
            else if ri == 2 { seq![(0, 1), (1, 1), (1, 2), (2, 2)] }
            else { seq![(1, 0), (0, 1), (1, 1), (0, 2)] }
        },
        PieceType::T => {
            if ri == 0 { seq![(0, 1), (1, 1), (2, 1), (1, 0)] }
            else if ri == 1 { seq![(1, 0), (1, 1), (1, 2), (2, 1)] }
            else if ri == 2 { seq![(0, 1), (1, 1), (2, 1), (1, 2)] }
            else { seq![(0, 1), (1, 0), (1, 1), (1, 2)] }
        },
        PieceType::O => seq![(0, 0), (1, 0), (0, 1), (1, 1)],
    }
}

/// The integer view of a list of cell offsets.
pub open spec fn cells_view(s: Seq<(isize, isize)>) -> Seq<(int, int)> {
    s.map_values(|c: (isize, isize)| (c.0 as int, c.1 as int))
}

/// Minimum x offset among the first `n` cells.
pub open spec fn min_x_upto(cells: Seq<(int, int)>, n: int) -> int
    decreases n,
{
    if n <= 1 {
        cells[0].0
    } else {
        let m = min_x_upto(cells, n - 1);
        if cells[n - 1].0 < m { cells[n - 1].0 } else { m }
    }
}

/// Maximum x offset among the first `n` cells.
pub open spec fn max_x_upto(cells: Seq<(int, int)>, n: int) -> int
    decreases n,
{
    if n <= 1 {
        cells[0].0
    } else {
        let m = max_x_upto(cells, n - 1);
        if cells[n - 1].0 > m { cells[n - 1].0 } else { m }
    }
}

/// Maximum y offset among the first `n` cells.
pub open spec fn max_y_upto(cells: Seq<(int, int)>, n: int) -> int
    decreases n,
{
    if n <= 1 {
        cells[0].1
    } else {
        let m = max_y_upto(cells, n - 1);
        if cells[n - 1].1 > m { cells[n - 1].1 } else { m }
    }
}

/// Minimum y offset among the first `n` cells whose x offset is `dx`;
/// `isize::MAX` when no such cell exists (a column the piece does not touch).
pub open spec fn skirt_val_upto(cells: Seq<(int, int)>, dx: int, n: int) -> int
    decreases n,
{
    if n <= 0 {
        isize::MAX as int
    } else {
        let m = skirt_val_upto(cells, dx, n - 1);
        if cells[n - 1].0 == dx && cells[n - 1].1 < m { cells[n - 1].1 } else { m }
    }
}

/// Leftmost x offset of the shape in the given rotation state.
pub open spec fn piece_min_x(t: PieceType, r: int) -> int {
    min_x_upto(cells_of(t, r), 4)
}

/// Rightmost x offset of the shape in the given rotation state.
pub open spec fn piece_max_x(t: PieceType, r: int) -> int {
    max_x_upto(cells_of(t, r), 4)
}

/// Highest y offset of the shape in the given rotation state.
pub open spec fn piece_max_y(t: PieceType, r: int) -> int {
    max_y_upto(cells_of(t, r), 4)
}

/// The contact surface of the shape: the lowest y offset it occupies at
/// relative column `dx`, or `isize::MAX` where it occupies none.
pub open spec fn piece_skirt(t: PieceType, r: int, dx: int) -> int {
    skirt_val_upto(cells_of(t, r), dx, 4)
}

/// The shape selected by an arbitrary index, taken modulo 7.
pub open spec fn piece_from_idx(i: int) -> PieceType {
    let k = i % 7;
    if k == 0 {
        PieceType::I
    } else if k == 1 {
        PieceType::J
    } else if k == 2 {
        PieceType::L
    } else if k == 3 {
        PieceType::S
    } else if k == 4 {
        PieceType::Z
    } else if k == 5 {
        PieceType::T
    } else {
        PieceType::O
    }
}

/// Every rotation state has exactly four cells, each offset within [0, 3].
pub proof fn lemma_cells_bounds(t: PieceType, r: int)
    ensures
        cells_of(t, r).len() == 4,
        forall|i: int|
            0 <= i < 4 ==> 0 <= (#[trigger] cells_of(t, r)[i]).0 <= 3 && 0 <= cells_of(
                t,
                r,
            )[i].1 <= 3,
{
    match t {
        PieceType::I => {},
        PieceType::J => {},
        PieceType::L => {},
        PieceType::S => {},
        PieceType::Z => {},
        PieceType::T => {},
        PieceType::O => {},
    }
}

/// The four cells of a rotation state are pairwise distinct.
pub proof fn lemma_cells_distinct(t: PieceType, r: int)
    ensures
        forall|i: int, j: int|
            0 <= i < j < 4 ==> #[trigger] cells_of(t, r)[i] != #[trigger] cells_of(t, r)[j],
{
    match t {
        PieceType::I => {},
        PieceType::J => {},
        PieceType::L => {},
        PieceType::S => {},
        PieceType::Z => {},
        PieceType::T => {},
        PieceType::O => {},
    }
}

/// `piece_min_x`/`piece_max_x`/`piece_max_y` bound every cell, and each bound
/// is attained by some cell.
pub proof fn lemma_extent(t: PieceType, r: int)
    ensures
        forall|i: int|
            0 <= i < 4 ==> piece_min_x(t, r) <= (#[trigger] cells_of(t, r)[i]).0 <= piece_max_x(
                t,
                r,
            ) && cells_of(t, r)[i].1 <= piece_max_y(t, r),
        exists|i: int| 0 <= i < 4 && (#[trigger] cells_of(t, r)[i]).0 == piece_min_x(t, r),
        exists|i: int| 0 <= i < 4 && (#[trigger] cells_of(t, r)[i]).0 == piece_max_x(t, r),
        exists|i: int| 0 <= i < 4 && (#[trigger] cells_of(t, r)[i]).1 == piece_max_y(t, r),
        0 <= piece_min_x(t, r) <= piece_max_x(t, r) <= 3,
        0 <= piece_max_y(t, r) <= 3,
{
    lemma_cells_bounds(t, r);
    reveal_with_fuel(min_x_upto, 5);
    reveal_with_fuel(max_x_upto, 5);
    reveal_with_fuel(max_y_upto, 5);
}

/// The skirt value at column `dx` is the least y offset the shape occupies
/// there: it bounds every cell in the column from below and is attained
/// whenever the column holds a cell.
pub proof fn lemma_skirt(t: PieceType, r: int, dx: int)
    ensures
        forall|i: int|
            0 <= i < 4 && (#[trigger] cells_of(t, r)[i]).0 == dx ==> piece_skirt(t, r, dx)
                <= cells_of(t, r)[i].1,
        (exists|i: int|
            0 <= i < 4 && (#[trigger] cells_of(t, r)[i]).0 == dx && cells_of(t, r)[i].1
                == piece_skirt(t, r, dx)) || piece_skirt(t, r, dx) == isize::MAX as int,
{
    lemma_cells_bounds(t, r);
    reveal_with_fuel(skirt_val_upto, 5);
}

impl PieceType {
    /// Number of rotation states of this shape. All shapes use 4 states
    /// (for O they are identical).
    pub fn rotation_count(&self) -> (n: usize)
        ensures
            n == 4,
    {
        4
    }

    /// The four cell offsets of this shape in rotation state `rot_idx mod 4`.
    pub fn get_rotation(&self, rot_idx: usize) -> (cells: [(isize, isize); 4])
        ensures
            cells_view(cells@) =~= cells_of(*self, rot_idx as int % 4),
    {
        let ri = rot_idx % 4;
        match self {
            PieceType::I => {
                if ri == 0 { [(0, 0), (1, 0), (2, 0), (3, 0)] }
                else if ri == 1 { [(2, 0), (2, 1), (2, 2), (2, 3)] }
                else if ri == 2 { [(0, 1), (1, 1), (2, 1), (3, 1)] }
                else { [(1, 0), (1, 1), (1, 2), (1, 3)] }
            },
            PieceType::J => {
                if ri == 0 { [(0, 0), (0, 1), (1, 1), (2, 1)] }
                else if ri == 1 { [(1, 0), (2, 0), (1, 1), (1, 2)] }
                else if ri == 2 { [(0, 1), (1, 1), (2, 1), (2, 2)] }
                else { [(1, 0), (1, 1), (0, 2), (1, 2)] }
            },
            PieceType::L => {
                if ri == 0 { [(0, 1), (1, 1), (2, 1), (2, 0)] }
                else if ri == 1 { [(1, 0), (1, 1), (1, 2), (2, 2)] }
                else if ri == 2 { [(0, 1), (0, 2), (1, 1), (2, 1)] }
                else { [(0, 0), (1, 0), (1, 1), (1, 2)] }
            },
            PieceType::S => {
                if ri == 0 { [(1, 0), (2, 0), (0, 1), (1, 1)] }
                else if ri == 1 { [(1, 0), (1, 1), (2, 1), (2, 2)] }
                else if ri == 2 { [(1, 1), (2, 1), (0, 2), (1, 2)] }
                else { [(0, 0), (0, 1), (1, 1), (1, 2)] }
            },
            PieceType::Z => {
                if ri == 0 { [(0, 0), (1, 0), (1, 1), (2, 1)] }
                else if ri == 1 { [(2, 0), (1, 1), (2, 1), (1, 2)] }
                else if ri == 2 { [(0, 1), (1, 1), (1, 2), (2, 2)] }
                else { [(1, 0), (0, 1), (1, 1), (0, 2)] }
            },
            PieceType::T => {
                if ri == 0 { [(0, 1), (1, 1), (2, 1), (1, 0)] }
                else if ri == 1 { [(1, 0), (1, 1), (1, 2), (2, 1)] }
                else if ri == 2 { [(0, 1), (1, 1), (2, 1), (1, 2)] }
                else { [(0, 1), (1, 0), (1, 1), (1, 2)] }
            },
            PieceType::O => [(0, 0), (1, 0), (0, 1), (1, 1)],
        }
    }

    /// All four rotation states of this shape.
    pub fn rotations(&self) -> (r: [[(isize, isize); 4]; 4])
        ensures
            forall|k: int| 0 <= k < 4 ==> cells_view(#[trigger] r@[k]@) == cells_of(*self, k),
    {
        [self.get_rotation(0), self.get_rotation(1), self.get_rotation(2), self.get_rotation(3)]
    }

    /// Minimum and maximum x offsets of this shape in rotation state
    /// `rot_idx mod 4`.
    pub fn minmax_x(&self, rot_idx: usize) -> (r: (isize, isize))
        ensures
            r.0 == piece_min_x(*self, rot_idx as int % 4),
            r.1 == piece_max_x(*self, rot_idx as int % 4),
    {
        proof {
            reveal_with_fuel(min_x_upto, 5);
            reveal_with_fuel(max_x_upto, 5);
        }
        let cells = self.get_rotation(rot_idx);
        let mut mn = cells[0].0;
        let mut mx = cells[0].0;
        if cells[1].0 < mn {
            mn = cells[1].0;
        }
        if cells[1].0 > mx {
            mx = cells[1].0;
        }
        if cells[2].0 < mn {
            mn = cells[2].0;
        }
        if cells[2].0 > mx {
            mx = cells[2].0;
        }
        if cells[3].0 < mn {
            mn = cells[3].0;
        }
        if cells[3].0 > mx {
            mx = cells[3].0;
        }
        (mn, mx)
    }

    /// Maximum x offset of this shape in rotation state `rot_idx mod 4`.
    pub fn max_x(&self, rot_idx: usize) -> (r: isize)
        ensures
            r == piece_max_x(*self, rot_idx as int % 4),
    {
        let (_, mx) = self.minmax_x(rot_idx);
        mx
    }

    /// Maximum y offset of this shape in rotation state `rot_idx mod 4`.
    pub fn max_y(&self, rot_idx: usize) -> (r: isize)
        ensures
            r == piece_max_y(*self, rot_idx as int % 4),
    {
        proof {
            reveal_with_fuel(max_y_upto, 5);
        }
        let cells = self.get_rotation(rot_idx);
        let mut my = cells[0].1;
        if cells[1].1 > my {
            my = cells[1].1;
        }
        if cells[2].1 > my {
            my = cells[2].1;
        }
        if cells[3].1 > my {
            my = cells[3].1;
        }
        my
    }

    /// The contact surface of this shape in rotation state `rot_idx mod 4`:
    /// element `j` is the lowest y offset occupied at relative column
    /// `piece_min_x + j`. Its length is the horizontal span of the shape.
    pub fn skirt(&self, rot_idx: usize) -> (s: Vec<isize>)
        ensures
            s@.len() == piece_max_x(*self, rot_idx as int % 4) - piece_min_x(
                *self,
                rot_idx as int % 4,
            ) + 1,
            forall|j: int|
                0 <= j < s@.len() ==> #[trigger] s@[j] == piece_skirt(
                    *self,
                    rot_idx as int % 4,
                    piece_min_x(*self, rot_idx as int % 4) + j,
                ),
    {
        let ghost r = rot_idx as int % 4;
        proof {
            lemma_extent(*self, r);
            lemma_cells_bounds(*self, r);
        }
        let cells = self.get_rotation(rot_idx);
        let (min_x, max_x) = self.minmax_x(rot_idx);
        let width = (max_x - min_x + 1) as usize;
        let mut s: Vec<isize> = Vec::new();
        while s.len() < width
            invariant
                width == piece_max_x(*self, r) - piece_min_x(*self, r) + 1,
                s@.len() <= width,
                forall|j: int| 0 <= j < s@.len() ==> #[trigger] s@[j] == isize::MAX,
            decreases width - s.len(),
        {
            s.push(isize::MAX);
        }
        let ghost c = cells_of(*self, r);
        let mut i: usize = 0;
        while i < 4
            invariant
                cells_view(cells@) == c,
                cells_of(*self, r) == c,
                c.len() == 4,
                forall|k: int| 0 <= k < 4 ==> 0 <= (#[trigger] c[k]).0 <= 3 && 0 <= c[k].1 <= 3,
                piece_min_x(*self, r) <= piece_max_x(*self, r) <= 3,
                forall|k: int|
                    0 <= k < 4 ==> piece_min_x(*self, r) <= (#[trigger] c[k]).0 <= piece_max_x(
                        *self,
                        r,
                    ),
                i <= 4,
                s@.len() == width,
                min_x == piece_min_x(*self, r),
                max_x == piece_max_x(*self, r),
                0 <= piece_min_x(*self, r),
                width == piece_max_x(*self, r) - piece_min_x(*self, r) + 1,
                forall|j: int|
                    0 <= j < s@.len() ==> #[trigger] s@[j] == skirt_val_upto(
                        c,
                        piece_min_x(*self, r) + j,
                        i as int,
                    ),
            decreases 4 - i,
        {
            let (x, y) = cells[i];
            proof {
                assert(c[i as int] == (x as int, y as int));
            }
            let idx = (x - min_x) as usize;
            if y < s[idx] {
                s.set(idx, y);
            }
            i = i + 1;
        }
        s
    }

    /// The shape selected by an arbitrary index, taken modulo 7.
    pub fn from_idx(idx: usize) -> (t: Self)
        ensures
            t == piece_from_idx(idx as int),
    {
        let k = idx % 7;
        if k == 0 {
            PieceType::I
        } else if k == 1 {
            PieceType::J
        } else if k == 2 {
            PieceType::L
        } else if k == 3 {
            PieceType::S
        } else if k == 4 {
            PieceType::Z
        } else if k == 5 {
            PieceType::T
        } else {
            PieceType::O
        }
    }
}

} // verus!
