//! Wall-kick offset tables: the ordered positional nudges attempted when a
//! rotation would otherwise collide, keyed by piece category and the
//! from/to rotation-state pair.

use vstd::prelude::*;
use crate::piece::PieceType;

verus! {

/// The index into the kick tables for a rotation from state `from` to state
/// `to` (both taken modulo 4). Unkeyed pairs fall back to index 0.
pub open spec fn kick_index(from: int, to: int) -> int {
    let f = from % 4;
    let t = to % 4;
    if f == 0 && t == 1 {
        0
    } else if f == 1 && t == 0 {
        1
    } else if f == 1 && t == 2 {
        2
    } else if f == 2 && t == 1 {
        3
    } else if f == 2 && t == 3 {
        4
    } else if f == 3 && t == 2 {
        5
    } else if f == 3 && t == 0 {
        6
    } else if f == 0 && t == 3 {
        7
    } else {
        0
    }
}

/// Kick offsets for the J, L, S, Z and T pieces (standard rotation-system
/// kicks), by kick index.
pub open spec fn jlszt_kicks(ki: int) -> Seq<(int, int)> {
    if ki == 0 {
        seq![(0, 0), (-1, 0), (-1, 1), (0, -2), (-1, -2)]
    } else if ki == 1 {
        seq![(0, 0), (1, 0), (1, -1), (0, 2), (1, 2)]
    } else if ki == 2 {
        seq![(0, 0), (1, 0), (1, -1), (0, 2), (1, 2)]
    } else if ki == 3 {
        seq![(0, 0), (-1, 0), (-1, 1), (0, -2), (-1, -2)]
    } else if ki == 4 {
        seq![(0, 0), (1, 0), (1, 1), (0, -2), (1, -2)]
    } else if ki == 5 {
        seq![(0, 0), (-1, 0), (-1, -1), (0, 2), (-1, 2)]
    } else if ki == 6 {
        seq![(0, 0), (-1, 0), (-1, -1), (0, 2), (-1, 2)]
    } else {
        seq![(0, 0), (1, 0), (1, 1), (0, -2), (1, -2)]
    }
}

/// Kick offsets for the I piece (different from the others owing to its
/// shape), by kick index.
pub open spec fn i_kicks(ki: int) -> Seq<(int, int)> {
    if ki == 0 {
        seq![(0, 0), (-2, 0), (1, 0), (-2, -1), (1, 2)]
    } else if ki == 1 {
        seq![(0, 0), (2, 0), (-1, 0), (2, 1), (-1, -2)]
    } else if ki == 2 {
        seq![(0, 0), (-1, 0), (2, 0), (-1, 2), (2, -1)]
    } else if ki == 3 {
        seq![(0, 0), (1, 0), (-2, 0), (1, -2), (-2, 1)]
    } else if ki == 4 {
        seq![(0, 0), (2, 0), (-1, 0), (2, 1), (-1, -2)]
    } else if ki == 5 {
        seq![(0, 0), (-2, 0), (1, 0), (-2, -1), (1, 2)]
    } else if ki == 6 {
        seq![(0, 0), (1, 0), (-2, 0), (1, -2), (-2, 1)]
    } else {
        seq![(0, 0), (-1, 0), (2, 0), (-1, 2), (2, -1)]
    }
}

/// The ordered kick offsets a piece of type `t` tries for kick index `ki`:
/// the I table for I, the single null offset for O (it never needs kicks),
/// and the shared table for J, L, S, Z and T.
pub open spec fn kick_table(t: PieceType, ki: int) -> Seq<(int, int)> {
    match t {
        PieceType::I => i_kicks(ki),
        PieceType::O => seq![(0, 0)],
        _ => jlszt_kicks(ki),
    }
}

/// Every kick offset is at most 2 cells in each axis.
pub proof fn lemma_kick_bounds(t: PieceType, ki: int)
    ensures
        1 <= kick_table(t, ki).len() <= 5,
        forall|i: int|
            0 <= i < kick_table(t, ki).len() ==> -2 <= (#[trigger] kick_table(t, ki)[i]).0 <= 2
                && -2 <= kick_table(t, ki)[i].1 <= 2,
        kick_table(t, ki)[0] == (0int, 0int),
{
    match t {
        PieceType::I => {},
        PieceType::O => {},
        _ => {},
    }
}

/// The index into the kick tables for the rotation-state pair
/// `(from_rot mod 4, to_rot mod 4)`. Unkeyed pairs fall back to index 0.
pub fn get_wall_kick_index(from_rot: usize, to_rot: usize) -> (ki: usize)
    ensures
        ki == kick_index(from_rot as int, to_rot as int),
        ki < 8,
{
    match (from_rot % 4, to_rot % 4) {
        (0, 1) => 0,
        (1, 0) => 1,
        (1, 2) => 2,
        (2, 1) => 3,
        (2, 3) => 4,
        (3, 2) => 5,
        (3, 0) => 6,
        (0, 3) => 7,
        _ => 0,
    }
}

/// The fixed-size backing row for `kick_table(t, ki mod 8)`: the row's
/// entries, and how many of them the table holds.
fn kick_array(t: PieceType, ki: usize) -> (r: ([(isize, isize); 5], usize))
    ensures
        r.1 == kick_table(t, ki as int % 8).len(),
        forall|j: int|
            0 <= j < r.1 ==> ((#[trigger] r.0@[j]).0 as int, r.0@[j].1 as int) == kick_table(
                t,
                ki as int % 8,
            )[j],
{
    proof {
        lemma_kick_bounds(t, ki as int % 8);
    }
    let k = ki % 8;
    match t {
        PieceType::I => {
            let arr: [(isize, isize); 5] = if k == 0 {
                [(0, 0), (-2, 0), (1, 0), (-2, -1), (1, 2)]
            } else if k == 1 {
                [(0, 0), (2, 0), (-1, 0), (2, 1), (-1, -2)]
            } else if k == 2 {
                [(0, 0), (-1, 0), (2, 0), (-1, 2), (2, -1)]
            } else if k == 3 {
                [(0, 0), (1, 0), (-2, 0), (1, -2), (-2, 1)]
            } else if k == 4 {
                [(0, 0), (2, 0), (-1, 0), (2, 1), (-1, -2)]
            } else if k == 5 {
                [(0, 0), (-2, 0), (1, 0), (-2, -1), (1, 2)]
            } else if k == 6 {
                [(0, 0), (1, 0), (-2, 0), (1, -2), (-2, 1)]
            } else {
                [(0, 0), (-1, 0), (2, 0), (-1, 2), (2, -1)]
            };
            (arr, 5)
        },
        PieceType::O => {
            let arr: [(isize, isize); 5] = [(0, 0), (0, 0), (0, 0), (0, 0), (0, 0)];
            (arr, 1)
        },
        _ => {
            let arr: [(isize, isize); 5] = if k == 0 {
                [(0, 0), (-1, 0), (-1, 1), (0, -2), (-1, -2)]
            } else if k == 1 {
                [(0, 0), (1, 0), (1, -1), (0, 2), (1, 2)]
            } else if k == 2 {
                [(0, 0), (1, 0), (1, -1), (0, 2), (1, 2)]
            } else if k == 3 {
                [(0, 0), (-1, 0), (-1, 1), (0, -2), (-1, -2)]
            } else if k == 4 {
                [(0, 0), (1, 0), (1, 1), (0, -2), (1, -2)]
            } else if k == 5 {
                [(0, 0), (-1, 0), (-1, -1), (0, 2), (-1, 2)]
            } else if k == 6 {
                [(0, 0), (-1, 0), (-1, -1), (0, 2), (-1, 2)]
            } else {
                [(0, 0), (1, 0), (1, 1), (0, -2), (1, -2)]
            };
            (arr, 5)
        },
    }
}

/// The ordered wall-kick offsets a piece of type `t` tries when rotating
/// from state `from_rot` to state `to_rot`.
pub fn wall_kick_offsets(t: PieceType, from_rot: usize, to_rot: usize) -> (v: Vec<(isize, isize)>)
    ensures
        crate::piece::cells_view(v@) == kick_table(
            t,
            kick_index(from_rot as int, to_rot as int),
        ),
{
    let ki = get_wall_kick_index(from_rot, to_rot);
    let (arr, cnt) = kick_array(t, ki);
    let ghost ktab = kick_table(t, ki as int % 8);
    proof {
        assert(ki as int % 8 == ki as int);
        assert(ktab == kick_table(t, kick_index(from_rot as int, to_rot as int)));
    }
    let mut v: Vec<(isize, isize)> = Vec::new();
    let mut i: usize = 0;
    while i < cnt
        invariant
            i <= cnt,
            cnt <= 5,
            cnt == ktab.len(),
            v@.len() == i,
            forall|j: int|
                0 <= j < cnt ==> ((#[trigger] arr@[j]).0 as int, arr@[j].1 as int) == ktab[j],
            forall|j: int|
                0 <= j < i ==> ((#[trigger] v@[j]).0 as int, v@[j].1 as int) == ktab[j],
        decreases cnt - i,
    {
        v.push(arr[i]);
        i = i + 1;
    }
    proof {
        assert(crate::piece::cells_view(v@) =~= ktab);
    }
    v
}

} // verus!
