//! A placed piece: shape, rotation index and absolute board position.

use vstd::prelude::*;
use crate::piece::{cells_of, cells_view, PieceType};

verus! {

/// Direction of a rotation step.
#[derive(Debug, Copy, Clone, PartialEq, Eq, Structural)]
pub enum RotationDirection {
    Cw,
    Ccw,
}

/// A position in board-cell coordinates: origin bottom-left, y increasing
/// upward. Values outside the board are meaningful (they name cells that any
/// bounds-checked query treats as unavailable).
#[derive(Debug, Copy, Clone, PartialEq, Eq, Structural)]
pub struct BoardPosition {
    pub x: isize,
    pub y: isize,
}

/// The rotation index reached from `r` by one step in direction `dir`,
/// modulo the 4 rotation states.
pub open spec fn next_rot(r: int, dir: RotationDirection) -> int {
    match dir {
        RotationDirection::Cw => (r + 1) % 4,
        RotationDirection::Ccw => (r + 3) % 4,
    }
}

/// The direction undoing a step in direction `dir`.
pub open spec fn opposite_dir(dir: RotationDirection) -> RotationDirection {
    match dir {
        RotationDirection::Cw => RotationDirection::Ccw,
        RotationDirection::Ccw => RotationDirection::Cw,
    }
}

/// One rotation step followed by one step in the opposite direction returns
/// a piece to its original rotation index.
pub proof fn lemma_rotate_inverse(r: int, dir: RotationDirection)
    requires
        0 <= r < 4,
    ensures
        next_rot(next_rot(r, dir), opposite_dir(dir)) == r,
{
}

/// Two rotation steps in one direction followed by one step in the
/// opposite direction amount to a single step: the rotation index does not
/// return to its start but advances by exactly one step in the first
/// direction.
pub proof fn lemma_rotate_twice_then_back(r: int, dir: RotationDirection)
    requires
        0 <= r < 4,
    ensures
        next_rot(next_rot(next_rot(r, dir), dir), opposite_dir(dir)) == next_rot(r, dir),
{
}

/// Four rotation steps in the same direction return a piece to its original
/// rotation index.
pub proof fn lemma_rotate_full_cycle(r: int, dir: RotationDirection)
    requires
        0 <= r < 4,
    ensures
        next_rot(next_rot(next_rot(next_rot(r, dir), dir), dir), dir) == r,
{
}

/// A piece placed on a board: its shape, current rotation state and the
/// absolute board position of its bottom-left origin.
#[derive(Debug, Copy, Clone)]
pub struct PieceInstance {
    pub typ: PieceType,
    /// Rotation index, kept in [0, 4).
    pub rot_idx: usize,
    pub position: BoardPosition,
}

impl PieceInstance {
    /// The rotation index is kept within the 4 rotation states.
    pub open spec fn wf(self) -> bool {
        self.rot_idx < 4
    }

    /// The cell offsets of this piece in its current rotation state, as
    /// mathematical integer pairs.
    pub open spec fn footprint(self) -> Seq<(int, int)> {
        cells_of(self.typ, self.rot_idx as int % 4)
    }

    /// A new piece spawns in rotation state 0.
    pub fn new(typ: PieceType, position: BoardPosition) -> (p: Self)
        ensures
            p.typ == typ,
            p.rot_idx == 0,
            p.position == position,
            p.wf(),
    {
        Self { typ, rot_idx: 0, position }
    }

    /// The four cell offsets for the current shape and rotation.
    pub fn cells(&self) -> (cells: [(isize, isize); 4])
        ensures
            cells_view(cells@) == self.footprint(),
    {
        self.typ.get_rotation(self.rot_idx)
    }

    /// Advance (clockwise) or retreat (counter-clockwise) the rotation index
    /// by one state. Pure index update: legality checking and wall kicks are
    /// the board's responsibility.
    pub fn rotate(&mut self, direction: RotationDirection)
        ensures
            final (self).typ == old(self).typ,
            final (self).position == old(self).position,
            final (self).rot_idx as int == next_rot(old(self).rot_idx as int % 4, direction),
            final (self).wf(),
    {
        let count: usize = 4;
        let inx = match direction {
            RotationDirection::Cw => (self.rot_idx % 4 + 1) % count,
            RotationDirection::Ccw => (self.rot_idx % 4 + count - 1) % count,
        };
        self.rot_idx = inx;
    }
}

} // verus!
