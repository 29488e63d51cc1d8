use tacit_gameover::piece::PieceType;
use tacit_gameover::piece_instance::{BoardPosition, PieceInstance, RotationDirection};

#[test]
fn test_piece_skirt() {
    // Test each piece type
    let pieces = [
        PieceType::I,
        PieceType::J,
        PieceType::L,
        PieceType::S,
        PieceType::Z,
        PieceType::T,
        PieceType::O,
    ];

    for piece_type in pieces.iter() {
        for rot_idx in 0..piece_type.rotation_count() {
            let rotation = piece_type.get_rotation(rot_idx);
            let skirt = piece_type.skirt(rot_idx);

            // Find the min/max x manually to verify
            let min_x = rotation.iter().map(|&(x, _)| x).min().unwrap();
            let max_x = rotation.iter().map(|&(x, _)| x).max().unwrap();

            // Verify skirt length
            let expected_width = (max_x - min_x + 1) as usize;
            assert_eq!(
                skirt.len(),
                expected_width,
                "Incorrect skirt width for {:?} rotation {}",
                piece_type,
                rot_idx
            );

            // Verify each skirt value
            for x in min_x..=max_x {
                let rel_x = (x - min_x) as usize;

                // Calculate expected min y for this x
                let expected_min_y = rotation
                    .iter()
                    .filter(|&&(cell_x, _)| cell_x == x)
                    .map(|&(_, cell_y)| cell_y)
                    .min();

                // If there's no cell at this x, the skirt should be isize::MAX
                // Otherwise, it should be the minimum y
                if let Some(min_y) = expected_min_y {
                    assert_eq!(
                        skirt[rel_x], min_y,
                        "Incorrect skirt value for {:?} rotation {} at x={}",
                        piece_type, rot_idx, x
                    );
                } else {
                    assert_eq!(
                        skirt[rel_x],
                        isize::MAX,
                        "Expected MAX skirt value for {:?} rotation {} at x={}",
                        piece_type,
                        rot_idx,
                        x
                    );
                }
            }

            // Print the test results for debugging
            println!("Piece: {:?}, Rotation: {}", piece_type, rot_idx);
            println!("Cells: {:?}", rotation);
            println!("Skirt: {:?}", skirt);
            println!("-----");
        }
    }
}

#[test]
fn rotation_count_is_four_for_all_types() {
    let pieces = [
        PieceType::I,
        PieceType::J,
        PieceType::L,
        PieceType::S,
        PieceType::Z,
        PieceType::T,
        PieceType::O,
    ];
    for piece_type in pieces.iter() {
        assert_eq!(piece_type.rotation_count(), 4);
    }
}

#[test]
fn from_idx_wraps_modulo_seven() {
    assert_eq!(PieceType::from_idx(0), PieceType::I);
    assert_eq!(PieceType::from_idx(1), PieceType::J);
    assert_eq!(PieceType::from_idx(2), PieceType::L);
    assert_eq!(PieceType::from_idx(3), PieceType::S);
    assert_eq!(PieceType::from_idx(4), PieceType::Z);
    assert_eq!(PieceType::from_idx(5), PieceType::T);
    assert_eq!(PieceType::from_idx(6), PieceType::O);
    assert_eq!(PieceType::from_idx(7), PieceType::I);
    assert_eq!(PieceType::from_idx(13), PieceType::O);
}

#[test]
fn minmax_x_matches_cells() {
    let pieces = [
        PieceType::I,
        PieceType::J,
        PieceType::L,
        PieceType::S,
        PieceType::Z,
        PieceType::T,
        PieceType::O,
    ];
    for piece_type in pieces.iter() {
        for rot_idx in 0..4 {
            let rotation = piece_type.get_rotation(rot_idx);
            let (min_x, max_x) = piece_type.minmax_x(rot_idx);
            assert_eq!(min_x, rotation.iter().map(|&(x, _)| x).min().unwrap());
            assert_eq!(max_x, rotation.iter().map(|&(x, _)| x).max().unwrap());
            assert_eq!(max_x, piece_type.max_x(rot_idx));
            assert_eq!(
                piece_type.max_y(rot_idx),
                rotation.iter().map(|&(_, y)| y).max().unwrap()
            );
        }
    }
}

#[test]
fn rotations_lists_all_four_states() {
    let all = PieceType::T.rotations();
    for (k, state) in all.iter().enumerate() {
        assert_eq!(*state, PieceType::T.get_rotation(k));
    }
}

// A clockwise step followed by a counter-clockwise step returns every piece
// type to its original rotation index, and four steps in one direction make
// a full cycle.
#[test]
fn rotate_inverse_and_full_cycle() {
    let pieces = [
        PieceType::I,
        PieceType::J,
        PieceType::L,
        PieceType::S,
        PieceType::Z,
        PieceType::T,
        PieceType::O,
    ];
    for piece_type in pieces.iter() {
        for start in 0..4usize {
            let mut p = PieceInstance::new(*piece_type, BoardPosition { x: 0, y: 0 });
            for _ in 0..start {
                p.rotate(RotationDirection::Cw);
            }
            assert_eq!(p.rot_idx, start);

            p.rotate(RotationDirection::Cw);
            p.rotate(RotationDirection::Ccw);
            assert_eq!(p.rot_idx, start, "cw then ccw must restore {:?}", piece_type);

            for _ in 0..4 {
                p.rotate(RotationDirection::Ccw);
            }
            assert_eq!(p.rot_idx, start, "four ccw steps must cycle {:?}", piece_type);
        }
    }
}

// Rotating twice clockwise and then once counter-clockwise advances the
// rotation index by exactly one state, for every piece type and start index.
#[test]
fn rotate_twice_cw_once_ccw_advances_one() {
    let pieces = [
        PieceType::I,
        PieceType::J,
        PieceType::L,
        PieceType::S,
        PieceType::Z,
        PieceType::T,
        PieceType::O,
    ];
    for piece_type in pieces.iter() {
        for start in 0..4usize {
            let mut p = PieceInstance::new(*piece_type, BoardPosition { x: 0, y: 0 });
            for _ in 0..start {
                p.rotate(RotationDirection::Cw);
            }
            p.rotate(RotationDirection::Cw);
            p.rotate(RotationDirection::Cw);
            p.rotate(RotationDirection::Ccw);
            assert_eq!(p.rot_idx, (start + 1) % 4);
        }
    }
}
