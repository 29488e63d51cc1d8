use tacit_gameover::board::{Board, PlaceResult};
use tacit_gameover::wall_kick::get_wall_kick_index;
use tacit_gameover::piece::PieceType;
use tacit_gameover::piece_instance::{BoardPosition, PieceInstance, RotationDirection};

fn place(t: PieceType, rot: usize, x: isize, y: isize) -> PieceInstance {
    let mut p = PieceInstance::new(t, BoardPosition { x, y });
    for _ in 0..rot {
        p.rotate(RotationDirection::Cw);
    }
    p
}

// Recompute both caches from the raw grid and compare: row_score[y] must be
// the exact filled-cell count of row y, and col_score[x] one above the
// highest filled cell of column x (or 0).
fn assert_scores_exact(b: &Board) {
    for y in 0..b.height {
        let mut count = 0;
        for x in 0..b.width {
            if b.is_cell_filled(BoardPosition { x, y }) {
                count += 1;
            }
        }
        assert_eq!(b.row_score(y), Some(count), "row_score[{}] inexact", y);
    }
    for x in 0..b.width {
        let mut height = 0;
        for y in 0..b.height {
            if b.is_cell_filled(BoardPosition { x, y }) {
                height = y + 1;
            }
        }
        assert_eq!(b.col_score(x), Some(height), "col_score[{}] inexact", x);
    }
}

#[test]
fn new_board_is_empty_with_zero_scores() {
    let b = Board::new(10, 20);
    for y in 0..20 {
        for x in 0..10 {
            assert!(!b.is_cell_filled(BoardPosition { x, y }));
        }
    }
    assert_scores_exact(&b);
    assert_eq!(b.midpoint_x(), 5);
    assert_eq!(b.score(), 0);
    assert_eq!(b.col_score_all().len(), 10);
}

#[test]
fn try_new_rejects_zero_dimensions() {
    assert!(Board::try_new(0, 5).is_err());
    assert!(Board::try_new(5, 0).is_err());
    assert!(Board::try_new(5, 5).is_ok());
}

#[test]
fn out_of_range_queries_return_none_or_false() {
    let b = Board::new(4, 4);
    assert_eq!(b.row_score(-1), None);
    assert_eq!(b.row_score(4), None);
    assert_eq!(b.col_score(-1), None);
    assert_eq!(b.col_score(4), None);
    assert!(!b.is_cell_filled(BoardPosition { x: -1, y: 0 }));
    assert!(!b.is_cell_filled(BoardPosition { x: 0, y: 4 }));
}

#[test]
fn try_place_reports_bounds_collision_and_row_fill() {
    let mut b = Board::new(4, 4);
    let o = place(PieceType::O, 0, 0, 0);
    assert_eq!(b.try_place(&o, BoardPosition { x: 0, y: 0 }), PlaceResult::PlaceOk);
    assert_eq!(
        b.try_place(&o, BoardPosition { x: -1, y: 0 }),
        PlaceResult::OutOfBounds
    );
    assert_eq!(
        b.try_place(&o, BoardPosition { x: 3, y: 0 }),
        PlaceResult::OutOfBounds
    );
    let committed = b.commit_piece(&o);
    assert!(committed.is_none());
    // Occupied cells reject the placement.
    assert_eq!(b.try_place(&o, BoardPosition { x: 1, y: 0 }), PlaceResult::PlaceBad);
    // A placement that would complete rows 0 and 1 is flagged as such
    // without mutating the board (read-only lookahead).
    assert_eq!(b.try_place(&o, BoardPosition { x: 2, y: 0 }), PlaceResult::RowFilled);
    assert!(!b.is_cell_filled(BoardPosition { x: 2, y: 0 }));
    assert_scores_exact(&b);
}

#[test]
fn commit_reports_exactly_the_completed_rows() {
    // 5-wide board: a horizontal I fills columns 0..=3 of row 0; a second I
    // overlapping at columns 1..=3 adds only the missing cell at column 4,
    // completing the row.
    let mut b = Board::new(5, 4);
    let first = place(PieceType::I, 0, 0, 0);
    assert!(b.commit_piece(&first).is_none());
    assert_eq!(b.row_score(0), Some(4));
    let second = place(PieceType::I, 0, 1, 0);
    let rows = b.commit_piece(&second).expect("the row completes");
    assert_eq!(rows, vec![0]);
    assert_scores_exact(&b);

    // Clearing that single full row leaves an all-empty grid.
    b.clear_rows(&rows);
    for y in 0..4 {
        for x in 0..5 {
            assert!(!b.is_cell_filled(BoardPosition { x, y }));
        }
    }
    assert_scores_exact(&b);
}

#[test]
fn scores_stay_exact_under_any_commit_sequence() {
    let mut b = Board::new(7, 10);
    let pieces = [
        place(PieceType::S, 0, 0, 0),
        place(PieceType::Z, 1, 3, 0),
        place(PieceType::T, 2, 2, 4),
        place(PieceType::L, 3, 5, 2),
        place(PieceType::J, 0, 1, 6),
        place(PieceType::I, 1, 3, 3),
        // A forced commit of an overlapping, partly out-of-range piece must
        // keep the caches exact too (the game-over path).
        place(PieceType::O, 0, 6, 8),
        place(PieceType::S, 0, 0, 0),
    ];
    for p in pieces.iter() {
        b.commit_piece(p);
        assert_scores_exact(&b);
    }
}

#[test]
fn o_piece_drops_to_the_floor_of_an_empty_board() {
    // 10-wide, 20-tall empty board; an O piece drops to y = 0; committing
    // it makes both occupied columns 2 high and rows 0 and 1 hold 2 cells.
    let b = Board::new(10, 20);
    let o = place(PieceType::O, 0, 4, 18);
    let (pos, result) = b.calculate_drop(&o);
    assert_eq!(pos.x, 4);
    assert_eq!(pos.y, 0);
    assert_eq!(result, PlaceResult::PlaceOk);

    let mut b = b;
    let dropped = place(PieceType::O, 0, pos.x, pos.y);
    assert!(b.commit_piece(&dropped).is_none());
    assert_eq!(b.col_score(4), Some(2));
    assert_eq!(b.col_score(5), Some(2));
    assert_eq!(b.row_score(0), Some(2));
    assert_eq!(b.row_score(1), Some(2));
    assert_scores_exact(&b);
}

#[test]
fn every_piece_and_rotation_drops_to_the_floor() {
    let pieces = [
        PieceType::I,
        PieceType::J,
        PieceType::L,
        PieceType::S,
        PieceType::Z,
        PieceType::T,
        PieceType::O,
    ];
    for t in pieces.iter() {
        for rot in 0..4 {
            let b = Board::new(10, 20);
            let p = place(*t, rot, 3, 15);
            let skirt = t.skirt(rot);
            let (min_x, _) = t.minmax_x(rot);
            let lowest = (0..skirt.len())
                .filter(|&j| skirt[j] != isize::MAX)
                .map(|j| skirt[j])
                .min()
                .unwrap();
            let (pos, _) = b.calculate_drop(&p);
            // The lowest cell rests exactly on row 0.
            assert_eq!(pos.y + lowest, 0, "{:?} rot {} (min_x {})", t, rot, min_x);
        }
    }
}

#[test]
fn drop_under_an_overhang_uses_the_gap_floor() {
    // A horizontal I committed at height 3 leaves a 4-wide cave below it:
    // its columns report height 4, but a piece already inside the cave must
    // rest on the gap floor, not on top of the overhang.
    let mut b = Board::new(10, 20);
    let ceiling = place(PieceType::I, 0, 0, 3);
    assert!(b.commit_piece(&ceiling).is_none());
    assert_eq!(b.col_score(0), Some(4));

    let o = place(PieceType::O, 0, 0, 1);
    let (pos, result) = b.calculate_drop(&o);
    assert_eq!(pos.x, 0);
    assert_eq!(pos.y, 0, "the piece must rest on the gap floor");
    assert_eq!(result, PlaceResult::PlaceOk);
}

#[test]
fn clearing_non_contiguous_rows_slides_each_row_by_cleared_below() {
    // 4-wide board: a horizontal I fills a row completely. Fill rows 0, 2
    // and 4; put a partial row (3 cells) at row 1 and another at row 5.
    let mut b = Board::new(4, 8);
    assert_eq!(b.commit_piece(&place(PieceType::I, 0, 0, 0)), Some(vec![0]));
    assert_eq!(b.commit_piece(&place(PieceType::I, 0, 0, 2)), Some(vec![2]));
    assert_eq!(b.commit_piece(&place(PieceType::I, 0, 0, 4)), Some(vec![4]));
    // Partial rows: the I at x=1 has one cell out of range, leaving 3 cells.
    assert!(b.commit_piece(&place(PieceType::I, 0, 1, 1)).is_none());
    assert!(b.commit_piece(&place(PieceType::I, 0, 1, 5)).is_none());
    assert_scores_exact(&b);

    b.clear_rows(&vec![0, 2, 4]);
    assert_scores_exact(&b);
    // Old row 1 slid down by 1 (one cleared row below it); old row 5 slid
    // down by 3.
    for x in 1..4 {
        assert!(b.is_cell_filled(BoardPosition { x, y: 0 }));
        assert!(b.is_cell_filled(BoardPosition { x, y: 2 }));
    }
    assert!(!b.is_cell_filled(BoardPosition { x: 0, y: 0 }));
    assert!(!b.is_cell_filled(BoardPosition { x: 0, y: 2 }));
    assert_eq!(b.row_score(0), Some(3));
    assert_eq!(b.row_score(1), Some(0));
    assert_eq!(b.row_score(2), Some(3));
    for y in 3..8 {
        assert_eq!(b.row_score(y), Some(0));
    }
    assert_eq!(b.col_score(0), Some(0));
    for x in 1..4 {
        assert_eq!(b.col_score(x), Some(3));
    }
}

#[test]
fn clearing_one_two_and_four_rows_keeps_caches_exact() {
    for rows in [vec![3], vec![1, 5], vec![0, 2, 4, 6]] {
        let mut b = Board::new(4, 8);
        for &y in rows.iter() {
            assert_eq!(b.commit_piece(&place(PieceType::I, 0, 0, y)), Some(vec![y]));
        }
        // Some extra structure that must slide consistently.
        b.commit_piece(&place(PieceType::O, 0, 2, 6));
        assert_scores_exact(&b);
        b.clear_rows(&rows);
        assert_scores_exact(&b);
    }
}

#[test]
fn save_then_mutate_then_resume_restores_the_board_bit_for_bit() {
    let mut b = Board::new(6, 8);
    b.commit_piece(&place(PieceType::T, 1, 2, 0));
    b.save_state();

    let mut expected_cells = Vec::new();
    for y in 0..8 {
        for x in 0..6 {
            expected_cells.push(b.is_cell_filled(BoardPosition { x, y }));
        }
    }
    let expected_cols = b.col_score_all().clone();

    // Mutate: more commits and a clear.
    assert_eq!(b.commit_piece(&place(PieceType::I, 0, 0, 3)), None);
    b.commit_piece(&place(PieceType::I, 0, 2, 3));
    b.clear_rows(&vec![3]);

    b.resume_state();
    let mut i = 0;
    for y in 0..8 {
        for x in 0..6 {
            assert_eq!(b.is_cell_filled(BoardPosition { x, y }), expected_cells[i]);
            i += 1;
        }
    }
    assert_eq!(b.col_score_all(), &expected_cols);
    assert_scores_exact(&b);
}

#[test]
fn resume_without_snapshot_changes_nothing() {
    let mut b = Board::new(4, 4);
    b.commit_piece(&place(PieceType::O, 0, 1, 0));
    b.resume_state();
    assert!(b.is_cell_filled(BoardPosition { x: 1, y: 0 }));
    assert_scores_exact(&b);
}

#[test]
fn rotation_in_open_space_keeps_position() {
    let mut b = Board::new(10, 20);
    let t = place(PieceType::T, 0, 4, 5);
    let new_pos = b.try_rotation(&t, RotationDirection::Cw).expect("free space");
    assert_eq!(new_pos.x, 4);
    assert_eq!(new_pos.y, 5);
    // On a completely filled board every kick collides and the rotation is
    // rejected.
    let mut full = Board::new(4, 4);
    for y in 0..4 {
        full.commit_piece(&place(PieceType::I, 0, 0, y));
    }
    let i = place(PieceType::I, 1, 1, 0);
    assert!(full.try_rotation(&i, RotationDirection::Cw).is_none());
}

#[test]
fn wall_kick_shifts_a_rotation_at_the_wall() {
    assert_eq!(get_wall_kick_index(0, 1), 0);
    assert_eq!(get_wall_kick_index(1, 0), 1);
    assert_eq!(get_wall_kick_index(1, 2), 2);
    assert_eq!(get_wall_kick_index(2, 1), 3);
    assert_eq!(get_wall_kick_index(2, 3), 4);
    assert_eq!(get_wall_kick_index(3, 2), 5);
    assert_eq!(get_wall_kick_index(3, 0), 6);
    assert_eq!(get_wall_kick_index(0, 3), 7);
    assert_eq!(get_wall_kick_index(5, 6), 2);

    // A vertical I hugging the right wall must kick left to rotate into its
    // horizontal state.
    let b = Board::new(4, 20);
    let i = place(PieceType::I, 1, 1, 5);
    // Rotation state 1 occupies column offset 2: legal at x=1 on width 4.
    assert_eq!(b.try_place(&i, i.position), PlaceResult::PlaceOk);
    let kicked = b.try_rotation(&i, RotationDirection::Cw).expect("kick succeeds");
    // State 2 spans offsets 0..=3, so the only legal x is 0: the kick moved
    // the piece left.
    assert_eq!(kicked.x, 0);
}

#[test]
fn scoring_awards_pieces_and_cleared_rows() {
    let mut b = Board::new(4, 8);
    b.score_piece(false);
    assert_eq!(b.score(), 10);
    b.score_piece(true);
    assert_eq!(b.score(), 30);
    b.score_cleared_rows(2);
    assert_eq!(b.score(), 230);
    b.score_cleared_rows(0);
    assert_eq!(b.score(), 230);
}
