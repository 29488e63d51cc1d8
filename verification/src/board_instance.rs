//! The per-board game controller: a finite state machine that spawns
//! pieces, applies gravity and player input, and orchestrates locking,
//! clearing and game-over sequencing, driving the board and the active
//! piece through one `update` call per simulation tick.

use vstd::prelude::*;
use crate::board::{
    became_full, pos_arith_ok, rows_distinct, rows_in_range, Board, PlaceResult,
};
use crate::piece::{piece_from_idx, piece_max_x, piece_max_y, PieceType};
use crate::piece_instance::{BoardPosition, PieceInstance, RotationDirection};
use crate::timer::Timer;

verus! {

/// Duration of the row-clearing animation, in milliseconds.
pub const CLEAR_DURATION_MS: u64 = 1000;

/// Duration of the row-sliding animation, in milliseconds (animation only,
/// it gates no logic).
pub const SLIDE_DURATION_MS: u64 = 150;

/// Duration of the game-over animation, in milliseconds.
pub const GAME_OVER_DURATION_MS: u64 = 3000;

/// The coarse state of one board's game loop.
#[derive(Debug, Copy, Clone, PartialEq, Eq, Structural)]
pub enum GameState {
    /// Ready to spawn a new piece.
    Ready,
    /// A piece is falling.
    Falling,
    /// The piece has landed and is about to commit. `now` bypasses the
    /// lock-delay timer; `hard_drop` only affects scoring.
    Locking { now: bool, hard_drop: bool },
    /// Completed rows are being cleared.
    Clearing,
    /// The grid filled up to the top.
    GameOver,
    /// Frozen after game over.
    Frozen,
    /// Paused; the interrupted state is remembered separately.
    Paused,
}

impl GameState {
    /// Whether two states are the same variant, ignoring the `Locking`
    /// payload. Exact equality (including the payload) is the derived `==`.
    pub open spec fn same_variant_spec(self, other: GameState) -> bool {
        match (self, other) {
            (GameState::Ready, GameState::Ready) => true,
            (GameState::Falling, GameState::Falling) => true,
            (GameState::Locking { .. }, GameState::Locking { .. }) => true,
            (GameState::Clearing, GameState::Clearing) => true,
            (GameState::GameOver, GameState::GameOver) => true,
            (GameState::Frozen, GameState::Frozen) => true,
            (GameState::Paused, GameState::Paused) => true,
            _ => false,
        }
    }

    /// Whether two states are the same variant, ignoring the `Locking`
    /// payload.
    pub fn same_variant(&self, other: &GameState) -> (b: bool)
        ensures
            b == self.same_variant_spec(*other),
    {
        match (self, other) {
            (GameState::Ready, GameState::Ready) => true,
            (GameState::Falling, GameState::Falling) => true,
            (GameState::Locking { .. }, GameState::Locking { .. }) => true,
            (GameState::Clearing, GameState::Clearing) => true,
            (GameState::GameOver, GameState::GameOver) => true,
            (GameState::Frozen, GameState::Frozen) => true,
            (GameState::Paused, GameState::Paused) => true,
            _ => false,
        }
    }
}

/// One discrete player input, at most one per tick.
#[derive(Debug, Copy, Clone, PartialEq, Eq, Structural)]
pub enum PlayerInput {
    L,
    R,
    HardDrop,
    Rotate,
    Pause,
    SaveState,
    ResumeState,
}

/// The five timers of one board: gravity interval, lock delay, and the
/// clear / slide / game-over animation durations.
#[derive(Debug, Copy, Clone)]
pub struct GameTimers {
    pub gravity: Timer,
    pub lock: Timer,
    pub clear_animation: Timer,
    pub slide_animation: Timer,
    pub game_over_animation: Timer,
}

/// All five timers keep their configured durations from `a` to `b`.
pub open spec fn timers_same_config(a: GameTimers, b: GameTimers) -> bool {
    &&& b.gravity.duration() == a.gravity.duration()
    &&& b.lock.duration() == a.lock.duration()
    &&& b.clear_animation.duration() == a.clear_animation.duration()
    &&& b.slide_animation.duration() == a.slide_animation.duration()
    &&& b.game_over_animation.duration() == a.game_over_animation.duration()
}

/// All five timers keep their pause flags from `a` to `b`.
pub open spec fn timers_same_pause(a: GameTimers, b: GameTimers) -> bool {
    &&& b.gravity.is_paused() == a.gravity.is_paused()
    &&& b.lock.is_paused() == a.lock.is_paused()
    &&& b.clear_animation.is_paused() == a.clear_animation.is_paused()
    &&& b.slide_animation.is_paused() == a.slide_animation.is_paused()
    &&& b.game_over_animation.is_paused() == a.game_over_animation.is_paused()
}

/// All five timers keep their accumulated progress from `a` to `b`.
pub open spec fn timers_same_elapsed(a: GameTimers, b: GameTimers) -> bool {
    &&& b.gravity.elapsed() == a.gravity.elapsed()
    &&& b.lock.elapsed() == a.lock.elapsed()
    &&& b.clear_animation.elapsed() == a.clear_animation.elapsed()
    &&& b.slide_animation.elapsed() == a.slide_animation.elapsed()
    &&& b.game_over_animation.elapsed() == a.game_over_animation.elapsed()
}

impl GameTimers {
    /// All five timers are well-formed.
    pub open spec fn wf(self) -> bool {
        &&& self.gravity.wf()
        &&& self.lock.wf()
        &&& self.clear_animation.wf()
        &&& self.slide_animation.wf()
        &&& self.game_over_animation.wf()
    }

    /// Fresh timers with the given durations, all unpaused and at zero.
    pub fn new(
        gravity_interval: u64,
        lock_delay: u64,
        clear_duration: u64,
        slide_duration: u64,
        game_over_duration: u64,
    ) -> (t: Self)
        requires
            gravity_interval > 0,
            lock_delay > 0,
            clear_duration > 0,
            slide_duration > 0,
            game_over_duration > 0,
        ensures
            t.wf(),
            t.gravity.duration() == gravity_interval,
            t.lock.duration() == lock_delay,
            t.clear_animation.duration() == clear_duration,
            t.slide_animation.duration() == slide_duration,
            t.game_over_animation.duration() == game_over_duration,
            timers_same_elapsed(t, t),
            t.gravity.elapsed() == 0 && t.lock.elapsed() == 0 && t.clear_animation.elapsed() == 0
                && t.slide_animation.elapsed() == 0 && t.game_over_animation.elapsed() == 0,
            !t.gravity.is_paused() && !t.lock.is_paused() && !t.clear_animation.is_paused()
                && !t.slide_animation.is_paused() && !t.game_over_animation.is_paused(),
    {
        Self {
            gravity: Timer::new(gravity_interval),
            lock: Timer::new(lock_delay),
            clear_animation: Timer::new(clear_duration),
            slide_animation: Timer::new(slide_duration),
            game_over_animation: Timer::new(game_over_duration),
        }
    }

    /// Suspend all five timers.
    pub fn pause_all(&mut self)
        ensures
            timers_same_config(*old(self), *final (self)),
            timers_same_elapsed(*old(self), *final (self)),
            final (self).gravity.is_paused() && final (self).lock.is_paused() && final (
            self).clear_animation.is_paused() && final (self).slide_animation.is_paused() && final (
            self).game_over_animation.is_paused(),
            old(self).wf() ==> final (self).wf(),
    {
        self.gravity.pause();
        self.lock.pause();
        self.clear_animation.pause();
        self.slide_animation.pause();
        self.game_over_animation.pause();
    }

    /// Continue all five timers.
    pub fn resume_all(&mut self)
        ensures
            timers_same_config(*old(self), *final (self)),
            timers_same_elapsed(*old(self), *final (self)),
            !final (self).gravity.is_paused() && !final (self).lock.is_paused() && !final (
            self).clear_animation.is_paused() && !final (self).slide_animation.is_paused()
                && !final (self).game_over_animation.is_paused(),
            old(self).wf() ==> final (self).wf(),
    {
        self.gravity.resume();
        self.lock.resume();
        self.clear_animation.resume();
        self.slide_animation.resume();
        self.game_over_animation.resume();
    }

    /// Restart all five timers from zero.
    pub fn reset_all(&mut self)
        ensures
            timers_same_config(*old(self), *final (self)),
            timers_same_pause(*old(self), *final (self)),
            final (self).gravity.elapsed() == 0 && final (self).lock.elapsed() == 0 && final (
            self).clear_animation.elapsed() == 0 && final (self).slide_animation.elapsed() == 0
                && final (self).game_over_animation.elapsed() == 0,
            old(self).wf() ==> final (self).wf(),
    {
        self.gravity.reset();
        self.lock.reset();
        self.clear_animation.reset();
        self.slide_animation.reset();
        self.game_over_animation.reset();
    }
}

/// The board-facing data of `a` and `b` agree: grid, caches, snapshot,
/// dimensions and score.
pub open spec fn board_data_eq(a: Board, b: Board) -> bool {
    &&& b.grid() == a.grid()
    &&& b.rows() == a.rows()
    &&& b.cols() == a.cols()
    &&& b.saved() == a.saved()
    &&& b.width == a.width
    &&& b.height == a.height
    &&& b.score_val() == a.score_val()
}

/// The position a newly spawned piece of type `t` takes: horizontally
/// centred by its span, top-justified by its vertical extent.
pub open spec fn spawn_position(b: Board, t: PieceType) -> BoardPosition {
    BoardPosition {
        x: (b.width as int / 2 - piece_max_x(t, 0) / 2) as isize,
        y: (b.height as int - piece_max_y(t, 0) - 1) as isize,
    }
}

/// One game controller: its board, the current and interrupted coarse
/// state, the timers, the rows awaiting the clearing animation, and the
/// active piece.
#[derive(Debug)]
pub struct BoardInstance {
    /// The internal board logic.
    pub board: Board,
    /// The current state of the game loop.
    pub game_state: GameState,
    /// The state interrupted by a pause, to come back to.
    pub prev_game_state: Option<GameState>,
    /// The timers used in the game.
    pub timers: GameTimers,
    /// Row indices for the Clearing state to clear.
    pub rows_to_clear: Option<Vec<isize>>,
    /// The currently active piece.
    pub active_piece: Option<PieceInstance>,
}

impl BoardInstance {
    /// The piece lies close enough to the board for all of the coordinate
    /// arithmetic the controller performs on it.
    pub open spec fn piece_pos_bounded(self, p: PieceInstance) -> bool {
        &&& -4 <= p.position.x as int <= self.board.width as int
        &&& -4 <= p.position.y as int <= self.board.height as int
    }

    /// The piece conditions a running (unpaused) state imposes: a falling
    /// or locking piece exists and is legally placed; ready, clearing and
    /// frozen boards have none.
    pub open spec fn piece_ok_base(self, state: GameState) -> bool {
        match state {
            GameState::Ready => self.active_piece is None,
            GameState::Falling | GameState::Locking { .. } => self.active_piece matches Some(p)
                && self.board.placement_legal_at(p, p.position.x as int, p.position.y as int),
            GameState::Clearing => self.active_piece is None,
            GameState::GameOver => true,
            GameState::Frozen => self.active_piece is None,
            GameState::Paused => false,
        }
    }

    /// The piece conditions a state imposes; a paused board imposes those
    /// of the state it interrupted.
    pub open spec fn piece_ok_for(self, state: GameState) -> bool {
        match state {
            GameState::Paused => match self.prev_game_state {
                Some(prev) => self.piece_ok_base(prev),
                None => false,
            },
            _ => self.piece_ok_base(state),
        }
    }

    /// The controller's invariant: the board and timers are well-formed,
    /// the board is small enough for position arithmetic, any active piece
    /// is well-formed and near the board, the current state's piece
    /// conditions hold, and pending clear rows are valid and distinct.
    pub open spec fn wf(self) -> bool {
        &&& self.board.wf()
        &&& self.board.width as int + 8 <= isize::MAX as int
        &&& self.board.height as int + 8 <= isize::MAX as int
        &&& self.timers.wf()
        &&& (self.active_piece matches Some(p) ==> p.wf() && self.piece_pos_bounded(p))
        &&& self.piece_ok_for(self.game_state)
        &&& (self.rows_to_clear matches Some(rows) ==> rows_in_range(
            rows@,
            self.board.height as int,
        ) && rows_distinct(rows@))
    }

    /// A fresh controller: empty board of the given dimensions, state
    /// Ready, no piece, fresh timers with the given gravity interval and
    /// lock delay. Zero dimensions or durations are construction-time
    /// misconfigurations and are excluded.
    pub fn new(
        width: usize,
        height: usize,
        gravity_interval: u64,
        lock_delay: u64,
    ) -> (bi: Self)
        requires
            1 <= width,
            1 <= height,
            width * height <= isize::MAX as int,
            width + 8 <= isize::MAX as int,
            height + 8 <= isize::MAX as int,
            gravity_interval > 0,
            lock_delay > 0,
        ensures
            bi.wf(),
            bi.board.width == width as int,
            bi.board.height == height as int,
            forall|x: int, y: int| !bi.board.cell(x, y),
            bi.game_state is Ready,
            bi.prev_game_state is None,
            bi.rows_to_clear is None,
            bi.active_piece is None,
            bi.board.score_val() == 0,
            bi.timers.gravity.duration() == gravity_interval,
            bi.timers.lock.duration() == lock_delay,
    {
        Self {
            board: Board::new(width, height),
            game_state: GameState::Ready,
            prev_game_state: None,
            timers: GameTimers::new(
                gravity_interval,
                lock_delay,
                CLEAR_DURATION_MS,
                SLIDE_DURATION_MS,
                GAME_OVER_DURATION_MS,
            ),
            rows_to_clear: None,
            active_piece: None,
        }
    }

    /// A fresh controller, or a descriptive error for a zero dimension, a
    /// grid too large for the address space, or a zero duration.
    pub fn try_new(
        width: usize,
        height: usize,
        gravity_interval: u64,
        lock_delay: u64,
    ) -> (r: Result<Self, &'static str>)
        ensures
            r matches Ok(bi) ==> bi.wf() && bi.game_state is Ready && bi.board.width
                == width as int && bi.board.height == height as int,
            r is Ok <==> 1 <= width && 1 <= height && width * height <= isize::MAX as int && width
                + 8 <= isize::MAX as int && height + 8 <= isize::MAX as int && gravity_interval > 0
                && lock_delay > 0,
    {
        if width == 0 || height == 0 {
            return Err("board dimensions must be positive");
        }
        if gravity_interval == 0 || lock_delay == 0 {
            return Err("timer durations must be positive");
        }
        if width > isize::MAX as usize - 8 || height > isize::MAX as usize - 8 {
            return Err("board dimensions overflow the coordinate space");
        }
        if width > isize::MAX as usize / height {
            proof {
                let w = width as int;
                let h = height as int;
                let m = isize::MAX as int;
                assert(w > m / h ==> w * h > m) by (nonlinear_arith)
                    requires
                        h >= 1,
                        m >= 1,
                ;
            }
            return Err("board dimensions overflow the grid index space");
        }
        proof {
            let w = width as int;
            let h = height as int;
            let m = isize::MAX as int;
            assert(w <= m / h ==> w * h <= m) by (nonlinear_arith)
                requires
                    h >= 1,
                    m >= 1,
            ;
        }
        Ok(Self::new(width, height, gravity_interval, lock_delay))
    }

    /// The accumulated score of this board.
    pub fn score(&self) -> (s: usize)
        ensures
            s == self.board.score_val(),
    {
        self.board.score()
    }

    /// The board, read-only.
    pub fn board(&self) -> (b: &Board)
        ensures
            b == &self.board,
    {
        &self.board
    }

    /// The board, for mutation by the host.
    pub fn board_mut(&mut self) -> (b: &mut Board)
        ensures
            *b == old(self).board,
            final (self).board == *final (b),
            final (self).game_state == old(self).game_state,
            final (self).prev_game_state == old(self).prev_game_state,
            final (self).timers == old(self).timers,
            final (self).rows_to_clear == old(self).rows_to_clear,
            final (self).active_piece == old(self).active_piece,
    {
        &mut self.board
    }

    /// Spawn a fresh piece chosen by the supplied random index (taken
    /// modulo 7), at the spawn position for its type, and report whether it
    /// can be placed there. The piece becomes active either way: a spawn
    /// that cannot be placed is the designed game-over trigger.
    fn spawn_new_piece(&mut self, rand: usize) -> (ok: bool)
        requires
            old(self).wf(),
        ensures
            final (self).board == old(self).board,
            final (self).game_state == old(self).game_state,
            final (self).prev_game_state == old(self).prev_game_state,
            final (self).timers == old(self).timers,
            final (self).rows_to_clear == old(self).rows_to_clear,
            final (self).active_piece matches Some(p) && p.typ == piece_from_idx(rand as int)
                && p.rot_idx == 0 && p.position == spawn_position(
                old(self).board,
                piece_from_idx(rand as int),
            ) && p.wf() && final (self).piece_pos_bounded(p),
            ok == old(self).board.placement_legal_at(
                PieceInstance {
                    typ: piece_from_idx(rand as int),
                    rot_idx: 0,
                    position: spawn_position(old(self).board, piece_from_idx(rand as int)),
                },
                spawn_position(old(self).board, piece_from_idx(rand as int)).x as int,
                spawn_position(old(self).board, piece_from_idx(rand as int)).y as int,
            ),
    {
        let piece_type = PieceType::from_idx(rand);
        proof {
            crate::piece::lemma_extent(piece_type, 0);
            self.board.lemma_wf_dims();
        }
        let spawn_pos = BoardPosition {
            x: self.board.midpoint_x() - piece_type.max_x(0) / 2,
            y: self.board.height - piece_type.max_y(0) - 1,
        };
        let new_piece = PieceInstance::new(piece_type, spawn_pos);
        let result = self.board.try_place(&new_piece, spawn_pos);
        let can_place = result == PlaceResult::PlaceOk || result == PlaceResult::RowFilled;
        self.active_piece = Some(new_piece);
        can_place
    }

    /// Commit the active piece (if any) to the board and take it out of
    /// play, returning the rows the commit completed.
    fn commit_active_piece(&mut self) -> (r: Option<Vec<isize>>)
        requires
            old(self).wf(),
        ensures
            final (self).board.wf(),
            final (self).active_piece is None,
            final (self).game_state == old(self).game_state,
            final (self).prev_game_state == old(self).prev_game_state,
            final (self).timers == old(self).timers,
            final (self).rows_to_clear == old(self).rows_to_clear,
            final (self).board.width == old(self).board.width,
            final (self).board.height == old(self).board.height,
            final (self).board.saved() == old(self).board.saved(),
            final (self).board.score_val() == old(self).board.score_val(),
            old(self).active_piece is None ==> final (self).board == old(self).board && r is None,
            r matches Some(rows) ==> rows@.len() > 0 && rows_in_range(
                rows@,
                old(self).board.height as int,
            ) && rows_distinct(rows@),
            r matches Some(rows) ==> forall|k: int|
                0 <= k < rows@.len() ==> became_full(
                    old(self).board.grid(),
                    final (self).board.grid(),
                    old(self).board.width as int,
                    (#[trigger] rows@[k]) as int,
                ),
            r is None ==> forall|y: int|
                0 <= y < old(self).board.height as int ==> !(#[trigger] became_full(
                    old(self).board.grid(),
                    final (self).board.grid(),
                    old(self).board.width as int,
                    y,
                )),
            old(self).active_piece matches Some(p) ==> crate::board::commit_grid_rel(
                old(self).board.grid(),
                final (self).board.grid(),
                old(self).board.width as int,
                old(self).board.height as int,
                p,
            ),
    {
        let piece = self.active_piece.take();
        match piece {
            Some(p) => {
                proof {
                    self.board.lemma_wf_dims();
                }
                self.board.commit_piece(&p)
            },
            None => None,
        }
    }
}

/// Some cell of the piece rests on the board floor (row 0).
pub open spec fn piece_at_bottom_spec(p: PieceInstance) -> bool {
    exists|i: int| 0 <= i < 4 && p.position.y as int + (#[trigger] p.footprint()[i]).1 == 0
}

/// The piece one row further down, as a value.
pub open spec fn moved_down(p: PieceInstance) -> PieceInstance {
    PieceInstance {
        position: BoardPosition { x: p.position.x, y: (p.position.y - 1) as isize },
        ..p
    }
}

/// An unpaused timer crosses its duration on a tick of `dt`.
pub open spec fn timer_fires(t: Timer, dt: u64) -> bool {
    !t.is_paused() && t.elapsed() + dt >= t.duration()
}

/// Everything but the game state, the remembered previous state and the
/// timers' pause flags is unchanged; the pause flags of all timers are set
/// and the interrupted state is remembered: entering pause.
pub open spec fn entered_pause(pre: BoardInstance, post: BoardInstance) -> bool {
    &&& post.game_state is Paused
    &&& post.prev_game_state == Some(pre.game_state)
    &&& board_data_eq(pre.board, post.board)
    &&& post.active_piece == pre.active_piece
    &&& post.rows_to_clear == pre.rows_to_clear
    &&& timers_same_config(pre.timers, post.timers)
    &&& timers_same_elapsed(pre.timers, post.timers)
    &&& post.timers.gravity.is_paused() && post.timers.lock.is_paused()
        && post.timers.clear_animation.is_paused() && post.timers.slide_animation.is_paused()
        && post.timers.game_over_animation.is_paused()
}

/// The pause toggle: entering pause from a running state, or returning to
/// the remembered state (all timers resumed) from pause.
pub open spec fn pause_toggled(pre: BoardInstance, post: BoardInstance) -> bool {
    if pre.game_state is Paused {
        &&& post.game_state == match pre.prev_game_state {
            Some(s) => s,
            None => GameState::Ready,
        }
        &&& post.prev_game_state is None
        &&& board_data_eq(pre.board, post.board)
        &&& post.active_piece == pre.active_piece
        &&& post.rows_to_clear == pre.rows_to_clear
        &&& timers_same_config(pre.timers, post.timers)
        &&& timers_same_elapsed(pre.timers, post.timers)
        &&& !post.timers.gravity.is_paused() && !post.timers.lock.is_paused()
            && !post.timers.clear_animation.is_paused() && !post.timers.slide_animation.is_paused()
            && !post.timers.game_over_animation.is_paused()
    } else {
        entered_pause(pre, post)
    }
}

/// Only the active piece changed, to the given value.
pub open spec fn only_piece_changed(
    pre: BoardInstance,
    post: BoardInstance,
    p: PieceInstance,
) -> bool {
    &&& post.active_piece == Some(p)
    &&& post.game_state == pre.game_state
    &&& post.prev_game_state == pre.prev_game_state
    &&& board_data_eq(pre.board, post.board)
    &&& post.rows_to_clear == pre.rows_to_clear
    &&& post.timers == pre.timers
}

/// Nothing changed at all.
pub open spec fn unchanged(pre: BoardInstance, post: BoardInstance) -> bool {
    &&& post.game_state == pre.game_state
    &&& post.prev_game_state == pre.prev_game_state
    &&& board_data_eq(pre.board, post.board)
    &&& post.active_piece == pre.active_piece
    &&& post.rows_to_clear == pre.rows_to_clear
    &&& post.timers == pre.timers
}

/// The effect of a one-cell horizontal move request (`dx` is -1 or 1): the
/// piece moves when the new placement is legal; a move that would complete
/// a row also forces an immediate lock.
pub open spec fn moved_sideways(pre: BoardInstance, post: BoardInstance, dx: int) -> bool {
    match pre.active_piece {
        None => unchanged(pre, post),
        Some(p) => {
            let nx = p.position.x as int + dx;
            let ny = p.position.y as int;
            let np = PieceInstance {
                position: BoardPosition { x: nx as isize, y: p.position.y },
                ..p
            };
            match pre.board.place_result_at(p, nx, ny) {
                PlaceResult::PlaceOk => only_piece_changed(pre, post, np),
                PlaceResult::RowFilled => {
                    &&& post.active_piece == Some(np)
                    &&& post.game_state == (GameState::Locking { now: true, hard_drop: false })
                    &&& post.prev_game_state == pre.prev_game_state
                    &&& board_data_eq(pre.board, post.board)
                    &&& post.rows_to_clear == pre.rows_to_clear
                    &&& post.timers == pre.timers
                },
                _ => unchanged(pre, post),
            }
        },
    }
}

/// The effect of a rotation request: the piece takes its next rotation
/// state at the first wall-kick offset where that footprint is legal, or
/// stays put when every kick fails.
pub open spec fn rotated_piece(pre: BoardInstance, post: BoardInstance) -> bool {
    match pre.active_piece {
        None => unchanged(pre, post),
        Some(p) => {
            let rp = Board::rotated_spec(p, RotationDirection::Cw);
            let ks = Board::kicks_of(p, RotationDirection::Cw);
            let px = p.position.x as int;
            let py = p.position.y as int;
            ||| (exists|k: int|
                0 <= k < ks.len() && pre.board.placement_legal_at(
                    rp,
                    px + (#[trigger] ks[k]).0,
                    py + ks[k].1,
                ) && (forall|j: int|
                    0 <= j < k ==> !pre.board.placement_legal_at(
                        rp,
                        px + (#[trigger] ks[j]).0,
                        py + ks[j].1,
                    )) && only_piece_changed(
                    pre,
                    post,
                    PieceInstance {
                        rot_idx: rp.rot_idx,
                        position: BoardPosition {
                            x: (px + ks[k].0) as isize,
                            y: (py + ks[k].1) as isize,
                        },
                        ..p
                    },
                ))
            ||| ((forall|j: int|
                0 <= j < ks.len() ==> !pre.board.placement_legal_at(
                    rp,
                    px + (#[trigger] ks[j]).0,
                    py + ks[j].1,
                )) && unchanged(pre, post))
        },
    }
}

/// The outcome of a hard drop whose resting row is `yd`: `yd` is the lowest
/// legal row reachable straight down from the piece's position, the piece
/// moves there, and the game enters Locking -- immediately committing when
/// the drop completes a row, otherwise with the lock delay restarted and
/// the hard-drop scoring flag set.
pub open spec fn drop_outcome(
    pre: BoardInstance,
    post: BoardInstance,
    p: PieceInstance,
    yd: int,
) -> bool {
    let px = p.position.x as int;
    let py = p.position.y as int;
    let np = PieceInstance { position: BoardPosition { x: p.position.x, y: yd as isize }, ..p };
    &&& pre.board.placement_legal_at(p, px, yd)
    &&& !pre.board.placement_legal_at(p, px, yd - 1)
    &&& forall|y: int| yd <= y <= py ==> pre.board.placement_legal_at(p, px, y)
    &&& match pre.board.place_result_at(p, px, yd) {
        PlaceResult::PlaceOk => {
            &&& post.active_piece == Some(np)
            &&& post.game_state == (GameState::Locking { now: false, hard_drop: true })
            &&& post.prev_game_state == pre.prev_game_state
            &&& board_data_eq(pre.board, post.board)
            &&& post.rows_to_clear == pre.rows_to_clear
            &&& timers_same_config(pre.timers, post.timers)
            &&& timers_same_pause(pre.timers, post.timers)
            &&& post.timers.lock.elapsed() == 0
            &&& post.timers.gravity == pre.timers.gravity
            &&& post.timers.clear_animation == pre.timers.clear_animation
            &&& post.timers.game_over_animation == pre.timers.game_over_animation
        },
        PlaceResult::RowFilled => {
            &&& post.active_piece == Some(np)
            &&& post.game_state == (GameState::Locking { now: true, hard_drop: true })
            &&& post.prev_game_state == pre.prev_game_state
            &&& board_data_eq(pre.board, post.board)
            &&& post.rows_to_clear == pre.rows_to_clear
            &&& post.timers == pre.timers
        },
        _ => unchanged(pre, post),
    }
}

/// The effect of a hard-drop request: see `drop_outcome`.
pub open spec fn hard_dropped(pre: BoardInstance, post: BoardInstance) -> bool {
    match pre.active_piece {
        None => unchanged(pre, post),
        Some(p) => exists|yd: int| #[trigger] drop_outcome(pre, post, p, yd),
    }
}

/// The effect of one discrete input on a running board: Left/Right try a
/// one-cell move, Rotate tries the next rotation state with wall kicks,
/// HardDrop drops to the resting position, Pause toggles pause, and the
/// save/resume inputs are ignored outside pause.
pub open spec fn input_applied(
    pre: BoardInstance,
    post: BoardInstance,
    input: PlayerInput,
) -> bool {
    match input {
        PlayerInput::L => moved_sideways(pre, post, -1),
        PlayerInput::R => moved_sideways(pre, post, 1),
        PlayerInput::Rotate => rotated_piece(pre, post),
        PlayerInput::HardDrop => hard_dropped(pre, post),
        PlayerInput::Pause => pause_toggled(pre, post),
        PlayerInput::SaveState => unchanged(pre, post),
        PlayerInput::ResumeState => unchanged(pre, post),
    }
}

impl BoardInstance {
    /// Whether some cell of the active piece rests on the board floor.
    fn is_piece_at_bottom(piece: &PieceInstance) -> (r: bool)
        requires
            piece.wf(),
            pos_arith_ok(piece.position),
        ensures
            r == piece_at_bottom_spec(*piece),
    {
        let ghost c = piece.footprint();
        proof {
            crate::piece::lemma_cells_bounds(piece.typ, piece.rot_idx as int % 4);
        }
        let cells = piece.cells();
        let mut i: usize = 0;
        while i < 4
            invariant
                piece.wf(),
                pos_arith_ok(piece.position),
                crate::piece::cells_view(cells@) == c,
                c == piece.footprint(),
                c.len() == 4,
                forall|k: int| 0 <= k < 4 ==> 0 <= (#[trigger] c[k]).0 <= 3 && 0 <= c[k].1 <= 3,
                i <= 4,
                forall|k: int| 0 <= k < i ==> piece.position.y as int + (#[trigger] c[k]).1 != 0,
            decreases 4 - i,
        {
            let (_, dy) = cells[i];
            proof {
                assert(c[i as int] == (cells@[i as int].0 as int, dy as int));
            }
            if piece.position.y + dy == 0 {
                return true;
            }
            i = i + 1;
        }
        false
    }

    /// Move the active piece to the requested position when the placement
    /// is legal; a move that completes a row forces an immediate lock.
    fn move_active_piece(&mut self, new_pos: BoardPosition)
        requires
            old(self).wf(),
            pos_arith_ok(new_pos),
            -4 <= new_pos.x as int <= old(self).board.width as int,
            -4 <= new_pos.y as int <= old(self).board.height as int,
        ensures
            final (self).wf(),
            match old(self).active_piece {
                None => unchanged(*old(self), *final (self)),
                Some(p) => {
                    let np = PieceInstance { position: new_pos, ..p };
                    match old(self).board.place_result_at(
                        p,
                        new_pos.x as int,
                        new_pos.y as int,
                    ) {
                        PlaceResult::PlaceOk => only_piece_changed(*old(self), *final (self), np),
                        PlaceResult::RowFilled => final (self).active_piece == Some(np) && final (
                        self).game_state == (GameState::Locking { now: true, hard_drop: false })
                            && final (self).prev_game_state == old(self).prev_game_state
                            && board_data_eq(old(self).board, final (self).board) && final (
                        self).rows_to_clear == old(self).rows_to_clear && final (self).timers
                            == old(self).timers,
                        _ => unchanged(*old(self), *final (self)),
                    }
                },
            },
    {
        let result = match &self.active_piece {
            Some(piece) => Some(self.board.try_place(piece, new_pos)),
            None => None,
        };
        let Some(result) = result else { return };
        let Some(piece) = self.active_piece.as_mut() else { return };
        match result {
            PlaceResult::PlaceOk => {
                piece.position = new_pos;
            },
            PlaceResult::RowFilled => {
                piece.position = new_pos;
                self.game_state = GameState::Locking { now: true, hard_drop: false };
            },
            PlaceResult::OutOfBounds | PlaceResult::PlaceBad => {},
        }
    }

    /// Rotate the active piece one step clockwise, applying the first
    /// wall-kick offset at which the rotated footprint is legal; the
    /// rotation is rejected when every kick fails.
    fn rotate_active_piece(&mut self)
        requires
            old(self).wf(),
        ensures
            final (self).wf(),
            rotated_piece(*old(self), *final (self)),
    {
        let Some(piece) = self.active_piece.as_mut() else {
            return ;
        };
        let rotation_direction = RotationDirection::Cw;
        if let Some(new_pos) = self.board.try_rotation(piece, rotation_direction) {
            piece.rotate(rotation_direction);
            piece.position = new_pos;
            proof {
                let p0 = old(self).active_piece->0;
                let rp = Board::rotated_spec(p0, RotationDirection::Cw);
                assert(self.active_piece == Some(
                    PieceInstance { rot_idx: rp.rot_idx, position: new_pos, ..p0 },
                ));
                // A legal placement keeps the piece near the board.
                crate::piece::lemma_cells_bounds(rp.typ, rp.rot_idx as int % 4);
                assert(0 <= new_pos.x as int + rp.footprint()[0].0 < self.board.width as int);
                assert(0 <= new_pos.y as int + rp.footprint()[0].1 < self.board.height as int);
            }
        }
    }

    /// Hard drop: move the active piece to its resting position and enter
    /// Locking (immediately committing when the drop completed a row).
    fn hard_drop(&mut self)
        requires
            old(self).wf(),
            (old(self).active_piece matches Some(p) ==> old(self).board.placement_legal_at(
                p,
                p.position.x as int,
                p.position.y as int,
            )),
        ensures
            final (self).wf(),
            hard_dropped(*old(self), *final (self)),
    {
        let drop = match &self.active_piece {
            Some(piece) => Some(self.board.calculate_drop(piece)),
            None => None,
        };
        let Some((drop_pos, result)) = drop else { return };
        let Some(piece) = self.active_piece.as_mut() else { return };
        match result {
            PlaceResult::PlaceOk => {
                piece.position = drop_pos;
                self.timers.lock.reset();
                self.game_state = GameState::Locking { now: false, hard_drop: true };
            },
            PlaceResult::RowFilled => {
                piece.position = drop_pos;
                self.game_state = GameState::Locking { now: true, hard_drop: true };
            },
            PlaceResult::OutOfBounds | PlaceResult::PlaceBad => {},
        }
        proof {
            let p0 = old(self).active_piece->0;
            // A legal resting position keeps the piece near the board.
            crate::piece::lemma_cells_bounds(p0.typ, p0.rot_idx as int % 4);
            assert(0 <= drop_pos.y as int + p0.footprint()[0].1 < self.board.height as int);
            assert(drop_outcome(*old(self), *self, p0, drop_pos.y as int));
        }
    }

    /// Toggle pause: remember the current state and suspend the timers, or
    /// return to the remembered state and resume them.
    fn handle_pause(&mut self)
        requires
            old(self).wf(),
        ensures
            final (self).wf(),
            pause_toggled(*old(self), *final (self)),
    {
        if matches!(self.game_state, GameState::Paused) {
            self.game_state = match self.prev_game_state.take() {
                Some(s) => s,
                None => GameState::Ready,
            };
            self.timers.resume_all();
        } else {
            self.prev_game_state = Some(self.game_state);
            self.game_state = GameState::Paused;
            self.timers.pause_all();
        }
    }

    /// Apply one discrete input to a running board.
    fn handle_input(&mut self, input: PlayerInput)
        requires
            old(self).wf(),
            !(old(self).game_state is Paused),
            (old(self).active_piece matches Some(p) ==> old(self).board.placement_legal_at(
                p,
                p.position.x as int,
                p.position.y as int,
            )),
        ensures
            final (self).wf(),
            input_applied(*old(self), *final (self), input),
    {
        match input {
            PlayerInput::L => {
                let pos = match &self.active_piece {
                    Some(piece) => Some(
                        BoardPosition { x: piece.position.x - 1, y: piece.position.y },
                    ),
                    None => None,
                };
                if let Some(new_pos) = pos {
                    proof {
                        let p = old(self).active_piece->0;
                        assert(0 <= p.position.x as int + p.footprint()[0].0);
                    }
                    self.move_active_piece(new_pos);
                }
            },
            PlayerInput::R => {
                let pos = match &self.active_piece {
                    Some(piece) => Some(
                        BoardPosition { x: piece.position.x + 1, y: piece.position.y },
                    ),
                    None => None,
                };
                if let Some(new_pos) = pos {
                    proof {
                        let p = old(self).active_piece->0;
                        assert(p.position.x as int + p.footprint()[0].0 < old(self).board.width as int);
                    }
                    self.move_active_piece(new_pos);
                }
            },
            PlayerInput::Rotate => {
                self.rotate_active_piece();
            },
            PlayerInput::HardDrop => {
                self.hard_drop();
            },
            PlayerInput::Pause => {
                self.handle_pause();
            },
            PlayerInput::SaveState => {},
            PlayerInput::ResumeState => {},
        }
    }
}

/// The effect on the board of committing piece `p` with the `hd` hard-drop
/// scoring flag: the footprint is merged into the grid, the piece award is
/// added, and `rows` holds exactly the completed rows (or `None`).
pub open spec fn commit_effect(
    pre_b: Board,
    post_b: Board,
    p: PieceInstance,
    rows: Option<Vec<isize>>,
    hd: bool,
) -> bool {
    &&& post_b.saved() == pre_b.saved()
    &&& post_b.width == pre_b.width
    &&& post_b.height == pre_b.height
    &&& post_b.score_val() == vstd::math::min(
        pre_b.score_val() + if hd {
            20int
        } else {
            10int
        },
        usize::MAX as int,
    )
    &&& crate::board::commit_grid_rel(
        pre_b.grid(),
        post_b.grid(),
        pre_b.width as int,
        pre_b.height as int,
        p,
    )
    &&& (rows matches Some(rs) ==> rs@.len() > 0 && rows_in_range(rs@, pre_b.height as int)
        && rows_distinct(rs@) && (forall|k: int|
        0 <= k < rs@.len() ==> became_full(
            pre_b.grid(),
            post_b.grid(),
            pre_b.width as int,
            (#[trigger] rs@[k]) as int,
        )))
    &&& (rows is None ==> forall|y: int|
        0 <= y < pre_b.height as int ==> !(#[trigger] became_full(
            pre_b.grid(),
            post_b.grid(),
            pre_b.width as int,
            y,
        )))
}

/// The Ready step: a piece of the type selected by `rand` spawns at the
/// spawn position, all timers restart, and the game falls -- or ends, when
/// the spawn position is already blocked.
pub open spec fn ready_post(pre: BoardInstance, post: BoardInstance, rand: usize) -> bool {
    let t = piece_from_idx(rand as int);
    let sp = spawn_position(pre.board, t);
    let p = PieceInstance { typ: t, rot_idx: 0, position: sp };
    &&& post.active_piece == Some(p)
    &&& board_data_eq(pre.board, post.board)
    &&& post.prev_game_state == pre.prev_game_state
    &&& post.rows_to_clear == pre.rows_to_clear
    &&& timers_same_config(pre.timers, post.timers)
    &&& timers_same_pause(pre.timers, post.timers)
    &&& post.timers.gravity.elapsed() == 0 && post.timers.lock.elapsed() == 0
        && post.timers.clear_animation.elapsed() == 0 && post.timers.slide_animation.elapsed() == 0
        && post.timers.game_over_animation.elapsed() == 0
    &&& post.game_state == (if pre.board.placement_legal_at(p, sp.x as int, sp.y as int) {
        GameState::Falling
    } else {
        GameState::GameOver
    })
}

/// The Falling step: input first (a pause suspends everything), then
/// gravity. With no input the step is given exactly by `gravity_step`; with
/// a movement input the board data is still untouched and the game keeps
/// falling or starts locking.
pub open spec fn falling_post(
    pre: BoardInstance,
    post: BoardInstance,
    dt: u64,
    input: Option<PlayerInput>,
) -> bool {
    &&& post.board.width == pre.board.width
    &&& post.board.height == pre.board.height
    &&& post.board.saved() == pre.board.saved()
    &&& post.board.grid() == pre.board.grid()
    &&& post.board.rows() == pre.board.rows()
    &&& post.board.cols() == pre.board.cols()
    &&& post.board.score_val() == pre.board.score_val()
    &&& post.rows_to_clear == pre.rows_to_clear
    &&& timers_same_config(pre.timers, post.timers)
    &&& match input {
        Some(PlayerInput::Pause) => entered_pause(pre, post),
        None => BoardInstance::gravity_phase_rel(pre, post, dt),
        Some(i) => exists|mid: BoardInstance|
            #[trigger] input_applied(pre, mid, i) && BoardInstance::gravity_phase_rel(
                mid,
                post,
                dt,
            ),
    }
}

/// The waiting part of a Locking step with no input: a piece that can still
/// descend cancels the lock and falls again (both timers restart); else, on
/// the lock delay's expiry, the piece commits and the game moves to
/// Clearing (rows completed) or Ready.
pub open spec fn locking_wait_post(
    pre: BoardInstance,
    post: BoardInstance,
    dt: u64,
    hd: bool,
) -> bool {
    let p0 = pre.active_piece->0;
    let px = p0.position.x as int;
    let py = p0.position.y as int;
    let can_slide = !piece_at_bottom_spec(p0) && pre.board.place_result_at(p0, px, py - 1)
        is PlaceOk;
    let p_mid = if can_slide {
        moved_down(p0)
    } else {
        p0
    };
    let lock_mid: int = if can_slide {
        0int
    } else {
        pre.timers.lock.elapsed() as int
    };
    let fires = !pre.timers.lock.is_paused() && lock_mid + dt >= pre.timers.lock.duration();
    &&& timers_same_config(pre.timers, post.timers)
    &&& timers_same_pause(pre.timers, post.timers)
    &&& post.timers.gravity.elapsed() == (if can_slide {
        0int
    } else {
        pre.timers.gravity.elapsed() as int
    })
    &&& post.timers.clear_animation == pre.timers.clear_animation
    &&& post.timers.slide_animation == pre.timers.slide_animation
    &&& post.timers.game_over_animation == pre.timers.game_over_animation
    &&& post.prev_game_state == pre.prev_game_state
    &&& if fires {
        &&& commit_effect(pre.board, post.board, p_mid, post.rows_to_clear, hd)
        &&& post.active_piece is None
        &&& post.game_state == (if post.rows_to_clear is Some {
            GameState::Clearing
        } else {
            GameState::Ready
        })
        &&& post.timers.lock.elapsed() == 0
    } else {
        &&& board_data_eq(pre.board, post.board)
        &&& post.rows_to_clear == pre.rows_to_clear
        &&& post.active_piece == Some(p_mid)
        &&& post.game_state == (if can_slide {
            GameState::Falling
        } else {
            GameState::Locking { now: false, hard_drop: hd }
        })
        &&& post.timers.lock.elapsed() == (if pre.timers.lock.is_paused() {
            lock_mid
        } else {
            lock_mid + dt
        })
    }
}

/// The Locking step. An immediate lock commits at once. Otherwise input is
/// applied first (a pause suspends everything); with no input the step is
/// exactly `locking_wait_post`, and with a movement input the piece may
/// still move, cancel the lock, or commit.
pub open spec fn locking_post(
    pre: BoardInstance,
    post: BoardInstance,
    dt: u64,
    input: Option<PlayerInput>,
    now: bool,
    hd: bool,
) -> bool {
    if now {
        &&& commit_effect(pre.board, post.board, pre.active_piece->0, post.rows_to_clear, hd)
        &&& post.active_piece is None
        &&& post.game_state == (if post.rows_to_clear is Some {
            GameState::Clearing
        } else {
            GameState::Ready
        })
        &&& post.prev_game_state == pre.prev_game_state
        &&& post.timers == pre.timers
    } else {
        match input {
            Some(PlayerInput::Pause) => entered_pause(pre, post),
            None => locking_wait_post(pre, post, dt, hd),
            Some(i) => exists|m1: BoardInstance, m2: BoardInstance|
                #![trigger input_applied(pre, m1, i), BoardInstance::slide_phase_rel(m1, m2)]
                input_applied(pre, m1, i) && BoardInstance::slide_phase_rel(m1, m2)
                    && BoardInstance::lock_phase_rel(m2, post, dt, hd),
        }
    }
}

/// The Clearing step: a pause suspends the animation; any other input does
/// nothing (there is no active piece). When the clear-animation timer
/// crosses its duration, the pending rows are scored and physically cleared
/// and the game returns to Ready.
pub open spec fn clearing_post(
    pre: BoardInstance,
    post: BoardInstance,
    dt: u64,
    input: Option<PlayerInput>,
) -> bool {
    if input == Some(PlayerInput::Pause) {
        entered_pause(pre, post)
    } else {
        let fires = timer_fires(pre.timers.clear_animation, dt);
        &&& post.active_piece is None
        &&& post.prev_game_state == pre.prev_game_state
        &&& timers_same_config(pre.timers, post.timers)
        &&& timers_same_pause(pre.timers, post.timers)
        &&& post.timers.gravity == pre.timers.gravity
        &&& post.timers.lock == pre.timers.lock
        &&& post.timers.slide_animation == pre.timers.slide_animation
        &&& post.timers.game_over_animation == pre.timers.game_over_animation
        &&& if fires {
            &&& post.game_state is Ready
            &&& post.rows_to_clear is None
            &&& post.timers.clear_animation.elapsed() == 0
            &&& post.board.saved() == pre.board.saved()
            &&& post.board.grid().len() == pre.board.grid().len()
            &&& match pre.rows_to_clear {
                Some(rows) => {
                    &&& post.board.score_val() == vstd::math::min(
                        pre.board.score_val() + rows@.len() * 100,
                        usize::MAX as int,
                    )
                    &&& (forall|r: int, x: int|
                        0 <= r < pre.board.height as int && !crate::board::row_listed(rows@, r)
                            && 0 <= x < pre.board.width as int ==> #[trigger] post.board.grid()[(r
                            - crate::board::cleared_below(rows@, r)) * pre.board.width as int + x]
                            == pre.board.grid()[r * pre.board.width as int + x])
                    &&& (forall|y: int, x: int|
                        pre.board.height as int - rows@.len() <= y < pre.board.height as int && 0
                            <= x < pre.board.width as int ==> !(#[trigger] post.board.grid()[y
                            * pre.board.width as int + x]))
                },
                None => board_data_eq(pre.board, post.board),
            }
        } else {
            &&& post.game_state == pre.game_state
            &&& post.rows_to_clear == pre.rows_to_clear
            &&& board_data_eq(pre.board, post.board)
            &&& post.timers.clear_animation.elapsed() == (if pre.timers.clear_animation.is_paused()
                 {
                pre.timers.clear_animation.elapsed() as int
            } else {
                pre.timers.clear_animation.elapsed() + dt
            })
        }
    }
}

/// The GameOver step: any active piece is force-committed (exactly, cell by
/// cell, without scoring), then only a pause is heeded, and when the
/// game-over animation finishes the board freezes.
pub open spec fn game_over_post(
    pre: BoardInstance,
    post: BoardInstance,
    dt: u64,
    input: Option<PlayerInput>,
) -> bool {
    &&& post.active_piece is None
    &&& (pre.active_piece matches Some(p) ==> crate::board::commit_grid_rel(
        pre.board.grid(),
        post.board.grid(),
        pre.board.width as int,
        pre.board.height as int,
        p,
    ))
    &&& (pre.active_piece is None ==> post.board.grid() == pre.board.grid())
    &&& post.board.width == pre.board.width
    &&& post.board.height == pre.board.height
    &&& post.board.saved() == pre.board.saved()
    &&& post.board.score_val() == pre.board.score_val()
    &&& post.rows_to_clear == pre.rows_to_clear
    &&& timers_same_config(pre.timers, post.timers)
    &&& timers_same_elapsed_except_game_over(pre.timers, post.timers)
    &&& if input == Some(PlayerInput::Pause) {
        &&& post.game_state is Paused
        &&& post.prev_game_state == Some(GameState::GameOver)
        &&& post.timers.game_over_animation.elapsed()
            == pre.timers.game_over_animation.elapsed()
        &&& post.timers.gravity.is_paused() && post.timers.lock.is_paused()
            && post.timers.clear_animation.is_paused() && post.timers.slide_animation.is_paused()
            && post.timers.game_over_animation.is_paused()
    } else {
        &&& post.prev_game_state == pre.prev_game_state
        &&& timers_same_pause(pre.timers, post.timers)
        &&& if timer_fires(pre.timers.game_over_animation, dt) {
            post.game_state is Frozen && post.timers.game_over_animation.elapsed() == 0
        } else {
            post.game_state is GameOver && post.timers.game_over_animation.elapsed() == (if pre
                .timers.game_over_animation.is_paused() {
                pre.timers.game_over_animation.elapsed() as int
            } else {
                pre.timers.game_over_animation.elapsed() + dt
            })
        }
    }
}

/// The first four timers keep their accumulated progress (the game-over
/// animation may advance).
pub open spec fn timers_same_elapsed_except_game_over(a: GameTimers, b: GameTimers) -> bool {
    &&& b.gravity.elapsed() == a.gravity.elapsed()
    &&& b.lock.elapsed() == a.lock.elapsed()
    &&& b.clear_animation.elapsed() == a.clear_animation.elapsed()
    &&& b.slide_animation.elapsed() == a.slide_animation.elapsed()
}

/// The Frozen step: nothing is simulated; only a pause is heeded.
pub open spec fn frozen_post(
    pre: BoardInstance,
    post: BoardInstance,
    input: Option<PlayerInput>,
) -> bool {
    if input == Some(PlayerInput::Pause) {
        entered_pause(pre, post)
    } else {
        unchanged(pre, post)
    }
}

/// The Paused step: a pause returns to the remembered state and resumes
/// the timers; the save/resume inputs snapshot or restore the board,
/// discard the active piece and return to Ready; everything else is
/// ignored.
pub open spec fn paused_post(
    pre: BoardInstance,
    post: BoardInstance,
    input: Option<PlayerInput>,
) -> bool {
    match input {
        Some(PlayerInput::Pause) => pause_toggled(pre, post),
        Some(PlayerInput::SaveState) => {
            &&& post.board.saved() matches Some(s) && s.grid@ == pre.board.grid() && s.row_score@
                == pre.board.rows() && s.col_score@ == pre.board.cols()
            &&& post.board.grid() == pre.board.grid()
            &&& post.board.rows() == pre.board.rows()
            &&& post.board.cols() == pre.board.cols()
            &&& post.board.score_val() == pre.board.score_val()
            &&& post.board.width == pre.board.width
            &&& post.board.height == pre.board.height
            &&& post.active_piece is None
            &&& post.game_state is Ready
            &&& post.prev_game_state == pre.prev_game_state
            &&& post.rows_to_clear == pre.rows_to_clear
            &&& post.timers == pre.timers
        },
        Some(PlayerInput::ResumeState) => {
            &&& (pre.board.saved() matches Some(s) ==> post.board.grid() == s.grid@
                && post.board.rows() == s.row_score@ && post.board.cols() == s.col_score@)
            &&& (pre.board.saved() is None ==> post.board.grid() == pre.board.grid()
                && post.board.rows() == pre.board.rows() && post.board.cols()
                == pre.board.cols())
            &&& post.board.saved() == pre.board.saved()
            &&& post.board.score_val() == pre.board.score_val()
            &&& post.board.width == pre.board.width
            &&& post.board.height == pre.board.height
            &&& post.active_piece is None
            &&& post.game_state is Ready
            &&& post.prev_game_state == pre.prev_game_state
            &&& post.rows_to_clear == pre.rows_to_clear
            &&& post.timers == pre.timers
        },
        _ => unchanged(pre, post),
    }
}

impl BoardInstance {
    /// The active piece (of a locking board) rests: it sits on the floor or
    /// cannot descend one row.
    pub open spec fn resting(self) -> bool {
        self.active_piece matches Some(p) ==> (piece_at_bottom_spec(p) || !(
        self.board.place_result_at(p, p.position.x as int, p.position.y as int - 1) is PlaceOk))
    }

    /// The lock delay only runs while the piece rests: a board in Locking
    /// without the immediate flag (or paused out of such a state) holds a
    /// piece that cannot descend.
    pub open spec fn lock_delay_inv(self) -> bool {
        &&& (match self.game_state {
            GameState::Locking { now, .. } => !now ==> self.resting(),
            _ => true,
        })
        &&& (self.game_state is Paused ==> match self.prev_game_state {
            Some(GameState::Locking { now, .. }) => !now ==> self.resting(),
            _ => true,
        })
    }

    /// The gravity phase of a tick: advance the gravity timer; when it
    /// fires and a piece is active, try a one-cell descent, locking (or
    /// immediately committing, when a row completes) if the descent is
    /// blocked.
    pub open spec fn gravity_phase_rel(pre: BoardInstance, post: BoardInstance, dt: u64) -> bool {
        let p0 = pre.active_piece->0;
        let px = p0.position.x as int;
        let py = p0.position.y as int;
        &&& board_data_eq(pre.board, post.board)
        &&& post.rows_to_clear == pre.rows_to_clear
        &&& post.prev_game_state == pre.prev_game_state
        &&& post.timers.lock == pre.timers.lock
        &&& post.timers.clear_animation == pre.timers.clear_animation
        &&& post.timers.slide_animation == pre.timers.slide_animation
        &&& post.timers.game_over_animation == pre.timers.game_over_animation
        &&& timers_same_config(pre.timers, post.timers)
        &&& timers_same_pause(pre.timers, post.timers)
        &&& if !timer_fires(pre.timers.gravity, dt) || pre.active_piece is None {
            &&& post.active_piece == pre.active_piece
            &&& post.game_state == pre.game_state
            &&& post.timers.gravity.elapsed() == (if pre.timers.gravity.is_paused() {
                pre.timers.gravity.elapsed() as int
            } else if timer_fires(pre.timers.gravity, dt) {
                0int
            } else {
                pre.timers.gravity.elapsed() + dt
            })
        } else {
            &&& post.timers.gravity.elapsed() == 0
            &&& if piece_at_bottom_spec(p0) {
                post.active_piece == pre.active_piece && post.game_state == (GameState::Locking {
                    now: false,
                    hard_drop: false,
                })
            } else {
                match pre.board.place_result_at(p0, px, py - 1) {
                    PlaceResult::PlaceOk => post.active_piece == Some(moved_down(p0))
                        && post.game_state is Falling,
                    PlaceResult::RowFilled => post.active_piece == Some(moved_down(p0))
                        && post.game_state == (GameState::Locking {
                        now: true,
                        hard_drop: false,
                    }),
                    _ => post.active_piece == pre.active_piece && post.game_state
                        == (GameState::Locking { now: false, hard_drop: false }),
                }
            }
        }
    }

    /// The gravity phase: see `gravity_phase_rel`.
    fn gravity_phase(&mut self, dt: u64)
        requires
            old(self).wf(),
            (old(self).active_piece matches Some(p) ==> old(self).board.placement_legal_at(
                p,
                p.position.x as int,
                p.position.y as int,
            )),
        ensures
            final (self).wf(),
            Self::gravity_phase_rel(*old(self), *final (self), dt),
    {
        let fired = self.timers.gravity.tick(dt);
        if fired && self.active_piece.is_some() {
            let at_bottom = match &self.active_piece {
                Some(piece) => Self::is_piece_at_bottom(piece),
                None => true,
            };
            if at_bottom {
                self.game_state = GameState::Locking { now: false, hard_drop: false };
            } else {
                let next_pos = match &self.active_piece {
                    Some(piece) => BoardPosition {
                        x: piece.position.x,
                        y: piece.position.y - 1,
                    },
                    None => BoardPosition { x: 0, y: 0 },
                };
                let result = match &self.active_piece {
                    Some(piece) => self.board.try_place(piece, next_pos),
                    None => PlaceResult::PlaceBad,
                };
                match result {
                    PlaceResult::PlaceOk => {
                        if let Some(piece) = self.active_piece.as_mut() {
                            piece.position = next_pos;
                        }
                        self.timers.gravity.reset();
                        self.game_state = GameState::Falling;
                    },
                    PlaceResult::RowFilled => {
                        if let Some(piece) = self.active_piece.as_mut() {
                            piece.position = next_pos;
                        }
                        self.game_state = GameState::Locking { now: true, hard_drop: false };
                    },
                    _ => {
                        self.game_state = GameState::Locking { now: false, hard_drop: false };
                    },
                }
            }
        }
    }

    /// The lock-cancel phase of a Locking tick: a piece that can still
    /// descend one row does so, both timers restart, and the game falls
    /// again; otherwise nothing changes.
    pub open spec fn slide_phase_rel(pre: BoardInstance, post: BoardInstance) -> bool {
        let p0 = pre.active_piece->0;
        let px = p0.position.x as int;
        let py = p0.position.y as int;
        let can = pre.active_piece is Some && !piece_at_bottom_spec(p0)
            && pre.board.place_result_at(p0, px, py - 1) is PlaceOk;
        if can {
            &&& post.active_piece == Some(moved_down(p0))
            &&& post.game_state is Falling
            &&& post.prev_game_state == pre.prev_game_state
            &&& board_data_eq(pre.board, post.board)
            &&& post.rows_to_clear == pre.rows_to_clear
            &&& timers_same_config(pre.timers, post.timers)
            &&& timers_same_pause(pre.timers, post.timers)
            &&& post.timers.gravity.elapsed() == 0
            &&& post.timers.lock.elapsed() == 0
            &&& post.timers.clear_animation == pre.timers.clear_animation
            &&& post.timers.slide_animation == pre.timers.slide_animation
            &&& post.timers.game_over_animation == pre.timers.game_over_animation
        } else {
            unchanged(pre, post)
        }
    }

    /// The lock-cancel phase: see `slide_phase_rel`.
    fn slide_phase(&mut self)
        requires
            old(self).wf(),
        ensures
            final (self).wf(),
            Self::slide_phase_rel(*old(self), *final (self)),
    {
        let can_slide = match &self.active_piece {
            Some(piece) => {
                if Self::is_piece_at_bottom(piece) {
                    false
                } else {
                    let next_pos = BoardPosition { x: piece.position.x, y: piece.position.y - 1 };
                    self.board.try_place(piece, next_pos) == PlaceResult::PlaceOk
                }
            },
            None => false,
        };
        if can_slide {
            if let Some(piece) = self.active_piece.as_mut() {
                piece.position.y = piece.position.y - 1;
            }
            self.timers.lock.reset();
            self.timers.gravity.reset();
            self.game_state = GameState::Falling;
        }
    }

    /// Commit the active piece with the given scoring flag and transition:
    /// Clearing when rows completed, Ready otherwise.
    pub open spec fn commit_transition_rel(
        pre: BoardInstance,
        post: BoardInstance,
        hd: bool,
    ) -> bool {
        &&& (pre.active_piece matches Some(p) ==> commit_effect(
            pre.board,
            post.board,
            p,
            post.rows_to_clear,
            hd,
        ))
        &&& (pre.active_piece is None ==> board_data_eq(pre.board, post.board)
            && post.rows_to_clear is None)
        &&& post.active_piece is None
        &&& post.game_state == (if post.rows_to_clear is Some {
            GameState::Clearing
        } else {
            GameState::Ready
        })
        &&& post.prev_game_state == pre.prev_game_state
        &&& post.timers == pre.timers
    }

    /// Score and commit the active piece, then transition on row
    /// completion: see `commit_transition_rel`.
    fn commit_and_transition(&mut self, hard_drop: bool)
        requires
            old(self).wf(),
        ensures
            final (self).wf(),
            Self::commit_transition_rel(*old(self), *final (self), hard_drop),
    {
        if self.active_piece.is_some() {
            self.board.score_piece(hard_drop);
        }
        let rows = self.commit_active_piece();
        let has_rows = rows.is_some();
        self.rows_to_clear = rows;
        if has_rows {
            self.game_state = GameState::Clearing;
        } else {
            self.game_state = GameState::Ready;
        }
    }

    /// The lock-delay phase of a Locking tick: advance the lock timer and
    /// commit when it crosses the delay.
    pub open spec fn lock_phase_rel(
        pre: BoardInstance,
        post: BoardInstance,
        dt: u64,
        hd: bool,
    ) -> bool {
        &&& post.timers.gravity == pre.timers.gravity
        &&& post.timers.clear_animation == pre.timers.clear_animation
        &&& post.timers.slide_animation == pre.timers.slide_animation
        &&& post.timers.game_over_animation == pre.timers.game_over_animation
        &&& timers_same_config(pre.timers, post.timers)
        &&& timers_same_pause(pre.timers, post.timers)
        &&& if timer_fires(pre.timers.lock, dt) {
            &&& post.timers.lock.elapsed() == 0
            &&& (pre.active_piece matches Some(p) ==> commit_effect(
                pre.board,
                post.board,
                p,
                post.rows_to_clear,
                hd,
            ))
            &&& (pre.active_piece is None ==> board_data_eq(pre.board, post.board)
                && post.rows_to_clear is None)
            &&& post.active_piece is None
            &&& post.game_state == (if post.rows_to_clear is Some {
                GameState::Clearing
            } else {
                GameState::Ready
            })
            &&& post.prev_game_state == pre.prev_game_state
        } else {
            &&& post.timers.lock.elapsed() == (if pre.timers.lock.is_paused() {
                pre.timers.lock.elapsed() as int
            } else {
                pre.timers.lock.elapsed() + dt
            })
            &&& board_data_eq(pre.board, post.board)
            &&& post.rows_to_clear == pre.rows_to_clear
            &&& post.active_piece == pre.active_piece
            &&& post.game_state == pre.game_state
            &&& post.prev_game_state == pre.prev_game_state
        }
    }

    /// The lock-delay phase: see `lock_phase_rel`.
    fn lock_phase(&mut self, dt: u64, hard_drop: bool)
        requires
            old(self).wf(),
        ensures
            final (self).wf(),
            Self::lock_phase_rel(*old(self), *final (self), dt, hard_drop),
    {
        if self.timers.lock.tick(dt) {
            self.commit_and_transition(hard_drop);
        }
    }

    /// The Ready step: spawn a piece and start falling, or end the game
    /// when the spawn position is blocked.
    fn ready_tick(&mut self, rand: usize)
        requires
            old(self).wf(),
            old(self).game_state is Ready,
        ensures
            final (self).wf(),
            final (self).lock_delay_inv(),
            ready_post(*old(self), *final (self), rand),
    {
        let ok = self.spawn_new_piece(rand);
        self.timers.reset_all();
        if ok {
            self.game_state = GameState::Falling;
        } else {
            self.game_state = GameState::GameOver;
        }
    }

    /// The Falling step: apply input, then gravity.
    #[verifier::rlimit(100)]
    #[verifier::spinoff_prover]
    fn falling_tick(&mut self, dt: u64, input: Option<PlayerInput>)
        requires
            old(self).wf(),
            old(self).game_state is Falling,
        ensures
            final (self).wf(),
            final (self).lock_delay_inv(),
            falling_post(*old(self), *final (self), dt, input),
    {
        if let Some(i) = input {
            self.handle_input(i);
        }
        let ghost mid = *self;
        self.gravity_phase(dt);
        proof {
            if let Some(i) = input {
                if !(i is Pause) {
                    assert(input_applied(*old(self), mid, i));
                    assert(Self::gravity_phase_rel(mid, *self, dt));
                }
            }
        }
    }

    /// The Locking step: an immediate lock commits at once; otherwise input
    /// may still move the piece (a successful descent cancels the lock),
    /// and on the lock delay's expiry the piece commits.
    #[verifier::rlimit(100)]
    #[verifier::spinoff_prover]
    fn locking_tick(&mut self, dt: u64, input: Option<PlayerInput>, now: bool, hard_drop: bool)
        requires
            old(self).wf(),
            old(self).game_state == (GameState::Locking { now, hard_drop }),
            old(self).lock_delay_inv(),
        ensures
            final (self).wf(),
            final (self).lock_delay_inv(),
            locking_post(*old(self), *final (self), dt, input, now, hard_drop),
    {
        if now {
            self.commit_and_transition(hard_drop);
            return ;
        }
        if let Some(i) = input {
            self.handle_input(i);
        }
        // A piece that can still descend cancels the pending lock.
        let ghost m1 = *self;
        self.slide_phase();
        let ghost m2 = *self;
        self.lock_phase(dt, hard_drop);
        proof {
            if let Some(i) = input {
                if !(i is Pause) {
                    assert(input_applied(*old(self), m1, i));
                    assert(Self::slide_phase_rel(m1, m2));
                    assert(Self::lock_phase_rel(m2, *self, dt, hard_drop));
                }
            }
        }
    }

    /// The Clearing step: let the animation run; when it finishes, score
    /// and physically clear the pending rows and return to Ready.
    #[verifier::rlimit(100)]
    #[verifier::spinoff_prover]
    fn clearing_tick(&mut self, dt: u64, input: Option<PlayerInput>)
        requires
            old(self).wf(),
            old(self).game_state is Clearing,
        ensures
            final (self).wf(),
            final (self).lock_delay_inv(),
            clearing_post(*old(self), *final (self), dt, input),
    {
        if let Some(i) = input {
            self.handle_input(i);
        }
        if self.timers.clear_animation.tick(dt) {
            if let Some(rows) = self.rows_to_clear.take() {
                self.board.score_cleared_rows(rows.len());
                self.board.clear_rows(&rows);
            }
            self.timers.clear_animation.reset();
            self.game_state = GameState::Ready;
        }
    }

    /// The GameOver step: force-commit any active piece, heed only a pause,
    /// and freeze when the game-over animation finishes.
    #[verifier::rlimit(100)]
    #[verifier::spinoff_prover]
    fn game_over_tick(&mut self, dt: u64, input: Option<PlayerInput>)
        requires
            old(self).wf(),
            old(self).game_state is GameOver,
        ensures
            final (self).wf(),
            final (self).lock_delay_inv(),
            game_over_post(*old(self), *final (self), dt, input),
    {
        let _ = self.commit_active_piece();
        if let Some(i) = input {
            self.handle_input(i);
        }
        if self.timers.game_over_animation.tick(dt) {
            self.game_state = GameState::Frozen;
        }
    }

    /// The Frozen step: accept input only (no simulation).
    fn frozen_tick(&mut self, input: Option<PlayerInput>)
        requires
            old(self).wf(),
            old(self).game_state is Frozen,
        ensures
            final (self).wf(),
            final (self).lock_delay_inv(),
            frozen_post(*old(self), *final (self), input),
    {
        if let Some(i) = input {
            self.handle_input(i);
        }
    }

    /// The Paused step: heed only the pause toggle and the save/resume
    /// snapshot inputs.
    fn paused_tick(&mut self, input: Option<PlayerInput>)
        requires
            old(self).wf(),
            old(self).game_state is Paused,
            old(self).lock_delay_inv(),
        ensures
            final (self).wf(),
            final (self).lock_delay_inv(),
            paused_post(*old(self), *final (self), input),
    {
        let Some(i) = input else { return };
        match i {
            PlayerInput::Pause => {
                self.handle_pause();
            },
            PlayerInput::SaveState => {
                self.board.save_state();
                self.active_piece = None;
                self.game_state = GameState::Ready;
            },
            PlayerInput::ResumeState => {
                self.board.resume_state();
                self.active_piece = None;
                self.game_state = GameState::Ready;
            },
            _ => {},
        }
    }

    /// One simulation tick: dispatch on the current state, consuming the
    /// elapsed milliseconds, at most one discrete input, and an externally
    /// supplied random index (taken modulo 7) for next-piece selection.
    /// Each state's exact effect is given by its transition relation.
    #[verifier::rlimit(100)]
    #[verifier::spinoff_prover]
    pub fn update(&mut self, dt: u64, input: Option<PlayerInput>, rand: usize)
        requires
            old(self).wf(),
            old(self).lock_delay_inv(),
        ensures
            final (self).wf(),
            final (self).lock_delay_inv(),
            match old(self).game_state {
                GameState::Ready => ready_post(*old(self), *final (self), rand),
                GameState::Falling => falling_post(*old(self), *final (self), dt, input),
                GameState::Locking { now, hard_drop } => locking_post(
                    *old(self),
                    *final (self),
                    dt,
                    input,
                    now,
                    hard_drop,
                ),
                GameState::Clearing => clearing_post(*old(self), *final (self), dt, input),
                GameState::GameOver => game_over_post(*old(self), *final (self), dt, input),
                GameState::Frozen => frozen_post(*old(self), *final (self), input),
                GameState::Paused => paused_post(*old(self), *final (self), input),
            },
    {
        match self.game_state {
            GameState::Ready => self.ready_tick(rand),
            GameState::Falling => self.falling_tick(dt, input),
            GameState::Locking { now, hard_drop } => self.locking_tick(dt, input, now, hard_drop),
            GameState::Clearing => self.clearing_tick(dt, input),
            GameState::GameOver => self.game_over_tick(dt, input),
            GameState::Frozen => self.frozen_tick(input),
            GameState::Paused => self.paused_tick(input),
        }
    }
}

} // verus!
