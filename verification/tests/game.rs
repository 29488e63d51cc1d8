use tacit_gameover::board_instance::{BoardInstance, GameState, PlayerInput};
use tacit_gameover::piece::PieceType;
use tacit_gameover::piece_instance::{BoardPosition, PieceInstance};
use tacit_gameover::timer::Timer;

const O_INDEX: usize = 6;

#[test]
fn timer_fires_exactly_on_crossing_and_resets() {
    let mut t = Timer::new(500);
    assert!(!t.tick(300));
    assert_eq!(t.elapsed_ms(), 300);
    assert!(t.tick(200));
    assert_eq!(t.elapsed_ms(), 0);
    assert!(!t.tick(499));
    assert!(t.tick(1));
}

#[test]
fn paused_timer_neither_advances_nor_fires() {
    let mut t = Timer::new(100);
    t.pause();
    assert!(!t.tick(1000));
    assert_eq!(t.elapsed_ms(), 0);
    t.resume();
    assert!(t.tick(1000));
}

#[test]
fn timer_progress_is_in_thousandths() {
    let mut t = Timer::new(1000);
    t.tick(250);
    assert_eq!(t.progress(), 250);
    t.tick(250);
    assert_eq!(t.progress(), 500);
    assert_eq!(t.duration_ms(), 1000);
}

#[test]
fn timer_with_zero_duration_is_rejected() {
    assert!(Timer::try_new(0).is_none());
    assert!(Timer::try_new(1).is_some());
}

#[test]
fn controller_construction_rejects_misconfiguration() {
    assert!(BoardInstance::try_new(0, 20, 1000, 500).is_err());
    assert!(BoardInstance::try_new(10, 0, 1000, 500).is_err());
    assert!(BoardInstance::try_new(10, 20, 0, 500).is_err());
    assert!(BoardInstance::try_new(10, 20, 1000, 0).is_err());
    assert!(BoardInstance::try_new(10, 20, 1000, 500).is_ok());
}

#[test]
fn ready_spawns_and_falls() {
    let mut bi = BoardInstance::new(10, 20, 1000, 500);
    assert!(matches!(bi.game_state, GameState::Ready));
    bi.update(0, None, O_INDEX);
    assert!(matches!(bi.game_state, GameState::Falling));
    let p = bi.active_piece.as_ref().expect("spawned");
    assert_eq!(p.typ, PieceType::O);
    // Spawn: horizontally centred by span, top-justified by extent.
    assert_eq!(p.position.x, 5);
    assert_eq!(p.position.y, 18);
}

#[test]
fn gravity_moves_the_piece_down_one_row_per_interval() {
    let mut bi = BoardInstance::new(10, 20, 1000, 500);
    bi.update(0, None, O_INDEX);
    let y0 = bi.active_piece.as_ref().unwrap().position.y;
    bi.update(999, None, 0);
    assert_eq!(bi.active_piece.as_ref().unwrap().position.y, y0);
    bi.update(1, None, 0);
    assert_eq!(bi.active_piece.as_ref().unwrap().position.y, y0 - 1);
}

// Locking with a 0.5 s lock delay: after 0.3 s with no interrupting move the
// state is still Locking; at 0.5 s cumulative the piece commits and the game
// returns to Ready (no row completed here).
#[test]
fn lock_delay_commits_at_cumulative_threshold() {
    let mut bi = BoardInstance::new(10, 20, 1000, 500);
    bi.update(0, None, O_INDEX);
    bi.update(0, Some(PlayerInput::HardDrop), 0);
    assert!(matches!(
        bi.game_state,
        GameState::Locking { now: false, hard_drop: true }
    ));
    bi.update(300, None, 0);
    assert!(matches!(bi.game_state, GameState::Locking { .. }));
    bi.update(200, None, 0);
    assert!(matches!(bi.game_state, GameState::Ready));
    assert!(bi.active_piece.is_none());
    // The dropped O now sits on the floor.
    let b = bi.board();
    assert!(b.is_cell_filled(BoardPosition { x: 5, y: 0 }));
    assert!(b.is_cell_filled(BoardPosition { x: 6, y: 1 }));
    // A hard-dropped piece scores double.
    assert_eq!(bi.score(), 20);
}

#[test]
fn moves_and_rotation_respect_walls() {
    let mut bi = BoardInstance::new(4, 20, 100000, 500);
    bi.update(0, None, O_INDEX);
    // O spawns at x = 2 on a 4-wide board; a move right hits the wall.
    assert_eq!(bi.active_piece.as_ref().unwrap().position.x, 2);
    bi.update(0, Some(PlayerInput::R), 0);
    assert_eq!(bi.active_piece.as_ref().unwrap().position.x, 2);
    bi.update(0, Some(PlayerInput::L), 0);
    bi.update(0, Some(PlayerInput::L), 0);
    assert_eq!(bi.active_piece.as_ref().unwrap().position.x, 0);
    bi.update(0, Some(PlayerInput::L), 0);
    assert_eq!(bi.active_piece.as_ref().unwrap().position.x, 0);
    // Rotating an O is a no-op on position.
    bi.update(0, Some(PlayerInput::Rotate), 0);
    assert_eq!(bi.active_piece.as_ref().unwrap().position.x, 0);
}

#[test]
fn completed_rows_clear_after_the_animation() {
    // 5-wide board with column 4 pre-filled up to row 3: a hard-dropped
    // horizontal I at x = 0 completes row 0.
    let mut bi = BoardInstance::new(5, 20, 100000, 500);
    let mut column = PieceInstance::new(PieceType::I, BoardPosition { x: 2, y: 0 });
    column.rotate(tacit_gameover::piece_instance::RotationDirection::Cw);
    bi.board_mut().commit_piece(&column); // fills (4, 0..=3)
    bi.update(0, None, 0); // spawn an I at x = 1
    assert_eq!(bi.active_piece.as_ref().unwrap().typ, PieceType::I);
    bi.update(0, Some(PlayerInput::L), 0);
    assert_eq!(bi.active_piece.as_ref().unwrap().position.x, 0);
    bi.update(0, Some(PlayerInput::HardDrop), 0);
    assert!(matches!(
        bi.game_state,
        GameState::Locking { now: true, hard_drop: true }
    ));
    bi.update(0, None, 0); // immediate commit
    assert!(matches!(bi.game_state, GameState::Clearing));
    assert_eq!(bi.rows_to_clear, Some(vec![0]));
    // 20 points for the hard-dropped piece.
    assert_eq!(bi.score(), 20);
    // The clear animation runs 1000 ms, then the rows vanish.
    bi.update(999, None, 0);
    assert!(matches!(bi.game_state, GameState::Clearing));
    bi.update(1, None, 0);
    assert!(matches!(bi.game_state, GameState::Ready));
    assert_eq!(bi.rows_to_clear, None);
    assert_eq!(bi.score(), 120);
    // The rows above slid down: the fixture column's remains sit one lower.
    let b = bi.board();
    for x in 0..4 {
        assert!(!b.is_cell_filled(BoardPosition { x, y: 0 }));
    }
    assert!(b.is_cell_filled(BoardPosition { x: 4, y: 0 }));
    assert!(b.is_cell_filled(BoardPosition { x: 4, y: 2 }));
    assert!(!b.is_cell_filled(BoardPosition { x: 4, y: 3 }));
}

#[test]
fn pause_suspends_and_restores_the_running_state() {
    let mut bi = BoardInstance::new(10, 20, 1000, 500);
    bi.update(0, None, O_INDEX);
    let y0 = bi.active_piece.as_ref().unwrap().position.y;
    bi.update(0, Some(PlayerInput::Pause), 0);
    assert!(matches!(bi.game_state, GameState::Paused));
    assert_eq!(bi.prev_game_state, Some(GameState::Falling));
    // Time passing while paused moves nothing.
    bi.update(5000, None, 0);
    assert_eq!(bi.active_piece.as_ref().unwrap().position.y, y0);
    // Movement inputs are ignored while paused.
    bi.update(0, Some(PlayerInput::L), 0);
    let x0 = bi.active_piece.as_ref().unwrap().position.x;
    bi.update(0, Some(PlayerInput::Pause), 0);
    assert!(matches!(bi.game_state, GameState::Falling));
    assert_eq!(bi.active_piece.as_ref().unwrap().position.x, x0);
    // Timers resumed: a full gravity interval now moves the piece.
    bi.update(1000, None, 0);
    assert_eq!(bi.active_piece.as_ref().unwrap().position.y, y0 - 1);
}

#[test]
fn save_and_resume_round_trip_through_pause() {
    let mut bi = BoardInstance::new(6, 12, 100000, 500);
    // Drop and commit one O to have some content.
    bi.update(0, None, O_INDEX);
    bi.update(0, Some(PlayerInput::HardDrop), 0);
    bi.update(500, None, 0);
    assert!(matches!(bi.game_state, GameState::Ready));
    let filled: Vec<(isize, isize)> = (0..6)
        .flat_map(|x| (0..12).map(move |y| (x, y)))
        .filter(|&(x, y)| bi.board().is_cell_filled(BoardPosition { x, y }))
        .collect();
    assert!(!filled.is_empty());

    // Save through pause (pausing is only possible from a running state,
    // so spawn first).
    bi.update(0, None, O_INDEX);
    bi.update(0, Some(PlayerInput::Pause), 0);
    bi.update(0, Some(PlayerInput::SaveState), 0);
    assert!(matches!(bi.game_state, GameState::Ready));
    assert!(bi.active_piece.is_none());

    // The save path leaves the timers suspended; one pause toggle from a
    // running state resumes them.
    bi.update(0, None, O_INDEX);
    bi.update(0, Some(PlayerInput::Pause), 0);
    bi.update(0, Some(PlayerInput::Pause), 0);
    assert!(matches!(bi.game_state, GameState::Falling));

    // Mutate: drop another piece.
    bi.update(0, Some(PlayerInput::L), 0);
    bi.update(0, Some(PlayerInput::HardDrop), 0);
    bi.update(500, None, 0);
    assert!(matches!(bi.game_state, GameState::Ready));

    // Restore through pause: the board returns to the snapshot.
    bi.update(0, None, O_INDEX);
    bi.update(0, Some(PlayerInput::Pause), 0);
    bi.update(0, Some(PlayerInput::ResumeState), 0);
    assert!(matches!(bi.game_state, GameState::Ready));
    for x in 0..6 {
        for y in 0..12 {
            assert_eq!(
                bi.board().is_cell_filled(BoardPosition { x, y }),
                filled.contains(&(x, y)),
                "cell ({}, {})",
                x,
                y
            );
        }
    }
}

#[test]
fn blocked_spawn_ends_the_game_and_freezes() {
    let mut bi = BoardInstance::new(10, 20, 1000, 500);
    // Fill the spawn area directly.
    let obstruction = PieceInstance::new(PieceType::O, BoardPosition { x: 5, y: 18 });
    bi.board_mut().commit_piece(&obstruction);
    bi.update(0, None, O_INDEX);
    assert!(matches!(bi.game_state, GameState::GameOver));
    // The colliding piece is force-committed on the next tick; the caches
    // stay exact even under that overlap.
    bi.update(0, None, 0);
    assert!(bi.active_piece.is_none());
    assert_eq!(bi.board().row_score(18), Some(2));
    // The game-over animation runs 3000 ms, then the board freezes.
    bi.update(2999, None, 0);
    assert!(matches!(bi.game_state, GameState::GameOver));
    bi.update(1, None, 0);
    assert!(matches!(bi.game_state, GameState::Frozen));
    bi.update(100000, None, 0);
    assert!(matches!(bi.game_state, GameState::Frozen));
}

#[test]
fn lock_cancels_when_the_piece_is_moved_off_its_resting_ledge() {
    // Build a one-cell ledge; a piece resting on it returns to Falling when
    // moved sideways off the ledge during the lock delay.
    let mut bi = BoardInstance::new(10, 20, 100000, 500);
    let ledge = PieceInstance::new(PieceType::O, BoardPosition { x: 4, y: 0 });
    bi.board_mut().commit_piece(&ledge);
    bi.update(0, None, O_INDEX); // O spawns at x=5
    bi.update(0, Some(PlayerInput::HardDrop), 0);
    // The O rests on the ledge (its left column sits over the ledge top).
    assert!(matches!(bi.game_state, GameState::Locking { .. }));
    assert_eq!(bi.active_piece.as_ref().unwrap().position.y, 2);
    // Moving right slides it off the ledge; the lock cancels.
    bi.update(0, Some(PlayerInput::R), 0);
    assert!(matches!(bi.game_state, GameState::Falling));
    // It falls again and finally rests on the floor.
    bi.update(0, Some(PlayerInput::HardDrop), 0);
    bi.update(500, None, 0);
    assert!(bi.board().is_cell_filled(BoardPosition { x: 6, y: 0 }));
}

#[test]
fn same_variant_ignores_the_locking_payload() {
    let a = GameState::Locking { now: true, hard_drop: false };
    let b = GameState::Locking { now: false, hard_drop: true };
    assert!(a.same_variant(&b));
    assert!(a != b);
    assert!(!a.same_variant(&GameState::Falling));
    assert_eq!(
        GameState::Locking { now: true, hard_drop: false },
        GameState::Locking { now: true, hard_drop: false }
    );
}
