//! The game engine: spawning, falling, landing, scoring and game over.
//!
//! The engine is a deterministic state machine. Whatever the outside world
//! decides (which kind comes next, what time it is, which key was pressed)
//! reaches it as a plain value. `GameView` is its mathematical model; every
//! operation of `Tetris` is described as a function on that model.
//!
//! Scoring: clearing 1, 2, 3 or 4 rows with one piece is worth 40, 100, 300 or
//! 1200 points, times the level at which the piece landed. The level starts
//! at 1 and rises by one with every ten lines. A piece falls one row every
//! 1000 ms at level 1 and 75 ms faster with each level, but never faster than
//! every 100 ms. Score and lines stop counting at `u32::MAX`.

use vstd::prelude::*;
use crate::grid::{
    cleared, complete_row_count, empty_playfield, fits, is_playfield, lemma_cleared_is_playfield,
    lemma_empty_playfield, lemma_fits_bounds, lemma_merged_is_playfield,
    lemma_piece_completes_at_most_four_rows, merged, Grid,
};
use crate::shape::{kind_of_roll, lemma_next_state_in_range, state_count, TetriminoKind};
use crate::tetrimino::{moved, piece_fits, turned, PieceView, Tetrimino};

verus! {

/// Column at which the bitmap of a new piece is anchored.
pub const SPAWN_X: i32 = 4;

/// Row at which the bitmap of a new piece is anchored.
pub const SPAWN_Y: i32 = 0;

/// Number of cleared lines after which the level rises by one.
pub const LINES_PER_LEVEL: u32 = 10;

/// What the player can ask for.
#[derive(Clone, Copy, Debug, PartialEq, Eq)]
pub enum Input {
    Quit,
    MoveLeft,
    MoveRight,
    SoftDrop,
    HardDrop,
    Rotate,
}

/// A step of one cell.
#[derive(Clone, Copy, Debug, PartialEq, Eq)]
pub enum Direction {
    Left,
    Right,
    Down,
}

/// Everything that can happen to a game. Times are in milliseconds on a clock
/// of the caller's choice; `roll` is any number, such as a random draw.
#[derive(Clone, Copy, Debug, PartialEq, Eq)]
pub enum Event {
    Spawn { roll: u64 },
    Tick { now: u64 },
    Key { input: Input, now: u64 },
}

/// Where the game stands between two events.
#[derive(Clone, Copy, Debug, PartialEq, Eq)]
pub enum Phase {
    /// No piece is on the playfield; the next one is due.
    Spawning,
    /// A piece is falling.
    Falling,
    /// The last piece could not be placed. Nothing changes any more.
    GameOver,
}

/// What a batch of inputs led to.
#[derive(Clone, Copy, Debug, PartialEq, Eq)]
pub struct FrameOutcome {
    /// The player asked to quit: a `Quit` stands among the inputs. The inputs
    /// after the first `Quit` were not applied.
    pub quit: bool,
    /// One of the inputs before the first `Quit` made the piece land. The
    /// inputs after it found no piece and changed nothing.
    pub landed: bool,
}

/// The level that belongs to a number of cleared lines.
pub open spec fn level_for(lines: nat) -> nat {
    1 + lines / 10
}

/// Points for clearing `rows` rows with one piece at `level`.
pub open spec fn line_bonus(rows: nat, level: nat) -> nat {
    if rows == 0 {
        0
    } else if rows == 1 {
        40 * level
    } else if rows == 2 {
        100 * level
    } else if rows == 3 {
        300 * level
    } else {
        1200 * level
    }
}

/// Milliseconds between two gravity steps at `level`.
pub open spec fn fall_interval(level: nat) -> nat {
    if level <= 1 {
        1000
    } else if level >= 13 {
        100
    } else {
        (1000 - (level - 1) * 75) as nat
    }
}

/// A counter value, held at `u32::MAX` once it would pass it.
pub open spec fn capped(n: nat) -> nat {
    if n > u32::MAX {
        u32::MAX as nat
    } else {
        n
    }
}

/// How far along x a step goes.
pub open spec fn step_dx(direction: Direction) -> int {
    match direction {
        Direction::Left => -1,
        Direction::Right => 1,
        Direction::Down => 0,
    }
}

/// How far along y a step goes.
pub open spec fn step_dy(direction: Direction) -> int {
    match direction {
        Direction::Down => 1,
        _ => 0,
    }
}

/// A new piece of `kind`: first rotation state, at the spawn anchor.
pub open spec fn spawn_piece(kind: TetriminoKind) -> PieceView {
    PieceView { kind, state: 0, x: SPAWN_X as int, y: SPAWN_Y as int }
}

/// The row at which the piece comes to rest when it moves down for as long as
/// it can.
pub open spec fn resting_row(rows: Seq<Seq<u8>>, piece: PieceView) -> int
    decreases 16 - piece.y,
{
    if piece.y < 16 && fits(rows, piece.kind, piece.state, piece.x, piece.y + 1) {
        resting_row(rows, moved(piece, piece.x, piece.y + 1))
    } else {
        piece.y
    }
}

/// The state of a game as plain mathematical values.
pub struct GameView {
    pub grid: Seq<Seq<u8>>,
    pub piece: Option<PieceView>,
    pub score: nat,
    pub lines: nat,
    pub level: nat,
    pub last_tick: nat,
    pub over: bool,
}

impl GameView {
    /// What holds of every state that a game can reach.
    pub open spec fn wf(self) -> bool {
        &&& is_playfield(self.grid)
        &&& complete_row_count(self.grid) == 0
        &&& self.score <= u32::MAX
        &&& self.lines <= u32::MAX
        &&& self.last_tick <= u64::MAX
        &&& self.level == level_for(self.lines)
        &&& (self.over ==> self.piece is None)
        &&& (self.piece matches Some(p) ==> 0 <= p.state < state_count(p.kind) && 0 <= p.y
            && piece_fits(self.grid, p))
    }

    /// A new game: empty playfield, no piece yet, level 1.
    pub open spec fn initial() -> GameView {
        GameView {
            grid: empty_playfield(),
            piece: None,
            score: 0,
            lines: 0,
            level: 1,
            last_tick: 0,
            over: false,
        }
    }

    /// The phase that the state is in.
    pub open spec fn phase(self) -> Phase {
        if self.over {
            Phase::GameOver
        } else if self.piece is Some {
            Phase::Falling
        } else {
            Phase::Spawning
        }
    }

    /// The same state with another falling piece, or none.
    pub open spec fn with_piece(self, piece: Option<PieceView>) -> GameView {
        GameView { piece, ..self }
    }

    /// The same state with the gravity clock started anew at `now`.
    pub open spec fn with_tick(self, now: nat) -> GameView {
        GameView { last_tick: now, ..self }
    }

    /// Spawning: a piece of the kind that `roll` selects appears at the spawn
    /// anchor if it fits there; if it does not, the game is over and nothing
    /// else changes. Outside the spawning phase nothing happens.
    pub open spec fn spawn(self, roll: nat) -> GameView {
        let piece = spawn_piece(kind_of_roll(roll as int));
        if self.phase() != Phase::Spawning {
            self
        } else if piece_fits(self.grid, piece) {
            self.with_piece(Some(piece))
        } else {
            GameView { over: true, ..self }
        }
    }

    /// Landing: the piece is merged into the playfield, the complete rows are
    /// cleared and counted, score and level follow, and the gravity clock
    /// starts anew. Without a piece nothing happens.
    pub open spec fn land(self, now: nat) -> GameView {
        match self.piece {
            None => self,
            Some(p) => {
                let filled = merged(self.grid, p);
                let rows = complete_row_count(filled);
                let lines = capped(self.lines + rows);
                GameView {
                    grid: cleared(filled),
                    piece: None,
                    score: capped(self.score + line_bonus(rows, self.level)),
                    lines,
                    level: level_for(lines),
                    last_tick: now,
                    over: self.over,
                }
            },
        }
    }

    /// Whether the falling piece can take one step in `direction`.
    pub open spec fn can_shift(self, direction: Direction) -> bool {
        self.piece matches Some(p) && fits(
            self.grid,
            p.kind,
            p.state,
            p.x + step_dx(direction),
            p.y + step_dy(direction),
        )
    }

    /// The falling piece takes one step in `direction` if it can.
    pub open spec fn shift(self, direction: Direction) -> GameView {
        match self.piece {
            Some(p) if self.can_shift(direction) => self.with_piece(
                Some(moved(p, p.x + step_dx(direction), p.y + step_dy(direction))),
            ),
            _ => self,
        }
    }

    /// Whether the falling piece can turn where it stands.
    pub open spec fn can_turn(self) -> bool {
        self.piece matches Some(p) && piece_fits(self.grid, turned(p))
    }

    /// The falling piece turns to its next rotation state if it can.
    pub open spec fn turn(self) -> GameView {
        match self.piece {
            Some(p) if self.can_turn() => self.with_piece(Some(turned(p))),
            _ => self,
        }
    }

    /// The falling piece moves down one row, or lands if it cannot.
    pub open spec fn soft_drop(self, now: nat) -> GameView {
        if self.piece is None {
            self
        } else if self.can_shift(Direction::Down) {
            self.shift(Direction::Down)
        } else {
            self.land(now)
        }
    }

    /// The falling piece moves down as far as it can and lands there.
    pub open spec fn hard_drop(self, now: nat) -> GameView {
        match self.piece {
            None => self,
            Some(p) => self.with_piece(Some(moved(p, p.x, resting_row(self.grid, p)))).land(now),
        }
    }

    /// Whether a gravity step is due at time `now`.
    pub open spec fn time_over(self, now: nat) -> bool {
        now >= self.last_tick && now - self.last_tick >= fall_interval(self.level)
    }

    /// Gravity: when a step is due, the falling piece moves down one row or
    /// lands, and the gravity clock starts anew.
    pub open spec fn tick(self, now: nat) -> GameView {
        if self.over || !self.time_over(now) {
            self
        } else {
            self.soft_drop(now).with_tick(now)
        }
    }

    /// One input of the player. Without a falling piece, and for `Quit`,
    /// nothing happens.
    pub open spec fn input(self, input: Input, now: nat) -> GameView {
        match input {
            Input::Quit => self,
            Input::MoveLeft => self.shift(Direction::Left),
            Input::MoveRight => self.shift(Direction::Right),
            Input::Rotate => self.turn(),
            Input::SoftDrop => self.soft_drop(now),
            Input::HardDrop => self.hard_drop(now),
        }
    }

    /// Whether `input` makes the falling piece land.
    pub open spec fn lands_on(self, input: Input) -> bool {
        self.piece is Some && match input {
            Input::SoftDrop => !self.can_shift(Direction::Down),
            Input::HardDrop => true,
            _ => false,
        }
    }

    /// One event.
    pub open spec fn step(self, event: Event) -> GameView {
        match event {
            Event::Spawn { roll } => self.spawn(roll as nat),
            Event::Tick { now } => self.tick(now as nat),
            Event::Key { input, now } => self.input(input, now as nat),
        }
    }

    /// A sequence of events, one after the other.
    pub open spec fn run(self, events: Seq<Event>) -> GameView
        decreases events.len(),
    {
        if events.len() == 0 {
            self
        } else {
            self.run(events.drop_last()).step(events.last())
        }
    }

    /// The state after a batch of inputs at time `now`: they are applied in
    /// order, one after the other, up to the first `Quit`.
    pub open spec fn frame(self, inputs: Seq<Input>, now: nat) -> GameView
        decreases inputs.len(),
    {
        if inputs.len() == 0 || inputs[0] == Input::Quit {
            self
        } else {
            self.input(inputs[0], now).frame(inputs.drop_first(), now)
        }
    }

    /// Whether one of the inputs of a batch, before its first `Quit`, makes the
    /// piece land.
    pub open spec fn frame_lands(self, inputs: Seq<Input>, now: nat) -> bool
        decreases inputs.len(),
    {
        if inputs.len() == 0 || inputs[0] == Input::Quit {
            false
        } else {
            self.lands_on(inputs[0]) || self.input(inputs[0], now).frame_lands(
                inputs.drop_first(),
                now,
            )
        }
    }
}

/// The level that belongs to a number of cleared lines.
pub fn level_for_lines(lines: u32) -> (level: u32)
    ensures
        level == level_for(lines as nat),
{
    1 + lines / LINES_PER_LEVEL
}

/// Points for clearing `rows` rows with one piece at `level`.
pub fn score_for_lines(rows: usize, level: u32) -> (points: u64)
    ensures
        points == line_bonus(rows as nat, level as nat),
{
    let level: u64 = level as u64;
    if rows == 0 {
        0
    } else if rows == 1 {
        40 * level
    } else if rows == 2 {
        100 * level
    } else if rows == 3 {
        300 * level
    } else {
        1200 * level
    }
}

/// Milliseconds between two gravity steps at `level`.
pub fn gravity_interval_ms(level: u32) -> (ms: u64)
    ensures
        ms == fall_interval(level as nat),
{
    if level <= 1 {
        1000
    } else if level >= 13 {
        100
    } else {
        1000 - (level as u64 - 1) * 75
    }
}

/// A running game.
#[derive(Clone, Copy, Debug)]
pub struct Tetris {
    game_map: Grid,
    current_piece: Option<Tetrimino>,
    score: u32,
    nb_lines: u32,
    current_level: u32,
    last_gravity_tick: u64,
    game_over: bool,
}

impl View for Tetris {
    type V = GameView;

    closed spec fn view(&self) -> GameView {
        GameView {
            grid: self.game_map@,
            piece: match self.current_piece {
                Some(piece) => Some(piece@),
                None => None,
            },
            score: self.score as nat,
            lines: self.nb_lines as nat,
            level: self.current_level as nat,
            last_tick: self.last_gravity_tick as nat,
            over: self.game_over,
        }
    }
}

impl Tetris {
    #[verifier::type_invariant]
    spec fn well_formed(self) -> bool {
        self@.wf()
    }

    /// A new game.
    pub fn new() -> (game: Tetris)
        ensures
            game@ == GameView::initial(),
    {
        proof {
            lemma_initial_is_wf();
        }
        Tetris {
            game_map: Grid::new(),
            current_piece: None,
            score: 0,
            nb_lines: 0,
            current_level: 1,
            last_gravity_tick: 0,
            game_over: false,
        }
    }

    /// The points won so far.
    pub fn score(&self) -> (score: u32)
        ensures
            score == self@.score,
    {
        self.score
    }

    /// The number of rows cleared so far.
    pub fn nb_lines(&self) -> (lines: u32)
        ensures
            lines == self@.lines,
    {
        self.nb_lines
    }

    /// The level, which follows from the number of rows cleared.
    pub fn current_level(&self) -> (level: u32)
        ensures
            level == self@.level,
            level == level_for(self@.lines),
    {
        proof {
            use_type_invariant(self);
        }
        self.current_level
    }

    /// The time at which the gravity clock was last started.
    pub fn last_gravity_tick(&self) -> (tick: u64)
        ensures
            tick == self@.last_tick,
    {
        self.last_gravity_tick
    }

    /// Whether the game is over.
    pub fn is_over(&self) -> (over: bool)
        ensures
            over == self@.over,
    {
        self.game_over
    }

    /// The playfield without the falling piece.
    pub fn game_map(&self) -> (grid: &Grid)
        ensures
            grid@ == self@.grid,
    {
        &self.game_map
    }

    /// The falling piece, if there is one.
    pub fn current_piece(&self) -> (piece: Option<Tetrimino>)
        ensures
            piece is Some == self@.piece is Some,
            piece matches Some(p) ==> self@.piece == Some(p@),
    {
        self.current_piece
    }

    /// The phase that the game is in.
    pub fn phase(&self) -> (phase: Phase)
        ensures
            phase == self@.phase(),
            self@.wf(),
    {
        proof {
            use_type_invariant(self);
        }
        if self.game_over {
            Phase::GameOver
        } else if self.current_piece.is_some() {
            Phase::Falling
        } else {
            Phase::Spawning
        }
    }

    /// The piece that a spawn with this `roll` would bring: of the kind that
    /// `roll` selects, in its first rotation state, at the spawn anchor.
    pub fn create_new_tetrimino(&self, roll: u64) -> (piece: Tetrimino)
        ensures
            piece@ == spawn_piece(kind_of_roll(roll as int)),
    {
        Tetrimino::new(TetriminoKind::from_roll(roll), SPAWN_X, SPAWN_Y)
    }

    /// Spawning. Returns whether a new piece is now falling; `false` after a
    /// spawn in the spawning phase means that the game is over.
    pub fn spawn_next(&mut self, roll: u64) -> (spawned: bool)
        ensures
            final(self)@ == old(self)@.spawn(roll as nat),
            spawned == (old(self)@.phase() == Phase::Spawning && final(self)@.phase()
                == Phase::Falling),
    {
        proof {
            use_type_invariant(&*self);
        }
        if self.game_over || self.current_piece.is_some() {
            return false;
        }
        let piece = self.create_new_tetrimino(roll);
        if piece.test_current_position(&self.game_map) {
            self.current_piece = Some(piece);
            true
        } else {
            self.game_over = true;
            false
        }
    }

    /// Landing. Returns the number of rows that were cleared.
    pub fn make_permanent(&mut self, now: u64) -> (rows: usize)
        ensures
            final(self)@ == old(self)@.land(now as nat),
            old(self)@.piece matches Some(p) ==> rows == complete_row_count(
                merged(old(self)@.grid, p),
            ),
            old(self)@.piece is None ==> rows == 0,
            rows <= 4,
    {
        match self.current_piece {
            None => 0,
            Some(piece) => {
                proof {
                    use_type_invariant(&*self);
                    lemma_land_preserves_wf(self@, now as nat);
                    lemma_piece_completes_at_most_four_rows(self@.grid, piece@);
                }
                let mut grid = self.game_map;
                grid.merge(&piece);
                let rows = grid.clear_completed_rows();
                let points: u64 = self.score as u64 + score_for_lines(rows, self.current_level);
                let score: u32 = if points > u32::MAX as u64 {
                    u32::MAX
                } else {
                    points as u32
                };
                let total: u64 = self.nb_lines as u64 + rows as u64;
                let nb_lines: u32 = if total > u32::MAX as u64 {
                    u32::MAX
                } else {
                    total as u32
                };
                *self = Tetris {
                    game_map: grid,
                    current_piece: None,
                    score,
                    nb_lines,
                    current_level: level_for_lines(nb_lines),
                    last_gravity_tick: now,
                    game_over: self.game_over,
                };
                rows
            },
        }
    }

    /// Tries to move the falling piece one step. A rejected move changes
    /// nothing.
    pub fn attempt_move(&mut self, direction: Direction) -> (done: bool)
        ensures
            done == old(self)@.can_shift(direction),
            final(self)@ == old(self)@.shift(direction),
    {
        match self.current_piece {
            None => false,
            Some(piece) => {
                proof {
                    use_type_invariant(&*self);
                    lemma_fits_bounds(
                        self@.grid,
                        piece@.kind,
                        piece@.state,
                        piece@.x,
                        piece@.y,
                    );
                }
                let mut piece = piece;
                let x = piece.x();
                let y = piece.y();
                let done = match direction {
                    Direction::Left => piece.change_position(&self.game_map, x - 1, y),
                    Direction::Right => piece.change_position(&self.game_map, x + 1, y),
                    Direction::Down => piece.change_position(&self.game_map, x, y + 1),
                };
                if done {
                    self.current_piece = Some(piece);
                }
                done
            },
        }
    }

    /// Tries to turn the falling piece. A rejected rotation changes nothing.
    pub fn attempt_rotate(&mut self) -> (done: bool)
        ensures
            done == old(self)@.can_turn(),
            final(self)@ == old(self)@.turn(),
    {
        match self.current_piece {
            None => false,
            Some(piece) => {
                proof {
                    use_type_invariant(&*self);
                    lemma_next_state_in_range(piece@.kind, piece@.state);
                }
                let mut piece = piece;
                let done = piece.rotate(&self.game_map);
                if done {
                    self.current_piece = Some(piece);
                }
                done
            },
        }
    }

    /// Moves the falling piece down one row, or lands it if it cannot move.
    /// Returns whether it landed.
    pub fn soft_drop(&mut self, now: u64) -> (landed: bool)
        ensures
            final(self)@ == old(self)@.soft_drop(now as nat),
            landed == old(self)@.lands_on(Input::SoftDrop),
    {
        if self.current_piece.is_none() {
            false
        } else if self.attempt_move(Direction::Down) {
            false
        } else {
            self.make_permanent(now);
            true
        }
    }

    /// Moves the falling piece down as far as it goes and lands it there.
    /// Returns whether a piece landed.
    pub fn hard_drop(&mut self, now: u64) -> (landed: bool)
        ensures
            final(self)@ == old(self)@.hard_drop(now as nat),
            landed == old(self)@.lands_on(Input::HardDrop),
    {
        match self.current_piece {
            None => false,
            Some(start) => {
                proof {
                    use_type_invariant(&*self);
                }
                let mut piece = start;
                loop
                    invariant
                        self@ == old(self)@,
                        self@.wf(),
                        self@.piece == Some(start@),
                        piece@.kind == start@.kind,
                        piece@.state == start@.state,
                        piece@.x == start@.x,
                        0 <= piece@.y,
                        piece_fits(self@.grid, piece@),
                        resting_row(self@.grid, piece@) == resting_row(self@.grid, start@),
                    ensures
                        piece@ == moved(start@, start@.x, resting_row(self@.grid, start@)),
                    decreases 16 - piece@.y,
                {
                    proof {
                        lemma_fits_bounds(
                            self@.grid,
                            piece@.kind,
                            piece@.state,
                            piece@.x,
                            piece@.y,
                        );
                    }
                    let x = piece.x();
                    let y = piece.y();
                    if !piece.change_position(&self.game_map, x, y + 1) {
                        break ;
                    }
                }
                proof {
                    lemma_resting_row(self@.grid, start@);
                }
                self.current_piece = Some(piece);
                self.make_permanent(now);
                true
            },
        }
    }

    /// Whether a gravity step is due at time `now`.
    pub fn is_time_over(&self, now: u64) -> (due: bool)
        ensures
            due == self@.time_over(now as nat),
    {
        now >= self.last_gravity_tick && now - self.last_gravity_tick >= gravity_interval_ms(
            self.current_level,
        )
    }

    /// Gravity. Returns whether the piece landed.
    pub fn tick(&mut self, now: u64) -> (landed: bool)
        ensures
            final(self)@ == old(self)@.tick(now as nat),
            landed == (!old(self)@.over && old(self)@.time_over(now as nat) && old(
                self,
            )@.lands_on(Input::SoftDrop)),
    {
        if self.game_over || !self.is_time_over(now) {
            return false;
        }
        let landed = self.soft_drop(now);
        proof {
            use_type_invariant(&*self);
        }
        self.last_gravity_tick = now;
        landed
    }

    /// Applies one input of the player. Returns whether the piece landed.
    pub fn apply_input(&mut self, input: Input, now: u64) -> (landed: bool)
        ensures
            final(self)@ == old(self)@.input(input, now as nat),
            landed == old(self)@.lands_on(input),
    {
        match input {
            Input::Quit => false,
            Input::MoveLeft => {
                self.attempt_move(Direction::Left);
                false
            },
            Input::MoveRight => {
                self.attempt_move(Direction::Right);
                false
            },
            Input::Rotate => {
                self.attempt_rotate();
                false
            },
            Input::SoftDrop => self.soft_drop(now),
            Input::HardDrop => self.hard_drop(now),
        }
    }

    /// Applies the inputs of one frame in order, up to the first `Quit`. A
    /// `Quit` is reported wherever it stands among the inputs, also after the
    /// input that made the piece land.
    pub fn handle_events(&mut self, inputs: &Vec<Input>, now: u64) -> (outcome: FrameOutcome)
        ensures
            final(self)@ == old(self)@.frame(inputs@, now as nat),
            outcome.quit == inputs@.contains(Input::Quit),
            outcome.landed == old(self)@.frame_lands(inputs@, now as nat),
    {
        let mut landed = false;
        let mut i: usize = 0;
        assert(inputs@.skip(0) =~= inputs@);
        while i < inputs.len()
            invariant
                i <= inputs.len(),
                forall|k: int| 0 <= k < i ==> inputs@[k] != Input::Quit,
                old(self)@.frame(inputs@, now as nat) == self@.frame(
                    inputs@.skip(i as int),
                    now as nat,
                ),
                old(self)@.frame_lands(inputs@, now as nat) == (landed || self@.frame_lands(
                    inputs@.skip(i as int),
                    now as nat,
                )),
            decreases inputs.len() - i,
        {
            let input = inputs[i];
            proof {
                assert(inputs@.skip(i as int)[0] == input);
                assert(inputs@.skip(i as int).drop_first() =~= inputs@.skip(i as int + 1));
            }
            match input {
                Input::Quit => {
                    assert(inputs@[i as int] == Input::Quit);
                    return FrameOutcome { quit: true, landed };
                },
                _ => {},
            }
            if self.apply_input(input, now) {
                landed = true;
            }
            i += 1;
        }
        FrameOutcome { quit: false, landed }
    }

    /// Applies one event.
    pub fn step(&mut self, event: Event)
        ensures
            final(self)@ == old(self)@.step(event),
            final(self)@.score >= old(self)@.score,
            final(self)@.lines >= old(self)@.lines,
            final(self)@.level >= old(self)@.level,
    {
        proof {
            use_type_invariant(&*self);
            lemma_step_never_lowers_counters(self@, event);
        }
        match event {
            Event::Spawn { roll } => {
                self.spawn_next(roll);
            },
            Event::Tick { now } => {
                self.tick(now);
            },
            Event::Key { input, now } => {
                self.apply_input(input, now);
            },
        }
    }
}

/// Moving down for as long as it can takes a piece that fits to a row where it
/// still fits and below which it does not, without leaving the playfield.
pub proof fn lemma_resting_row(rows: Seq<Seq<u8>>, piece: PieceView)
    requires
        0 <= piece.state < state_count(piece.kind),
        piece_fits(rows, piece),
    ensures
        piece.y <= resting_row(rows, piece) <= 15,
        fits(rows, piece.kind, piece.state, piece.x, resting_row(rows, piece)),
        !fits(rows, piece.kind, piece.state, piece.x, resting_row(rows, piece) + 1),
    decreases 16 - piece.y,
{
    lemma_fits_bounds(rows, piece.kind, piece.state, piece.x, piece.y);
    if fits(rows, piece.kind, piece.state, piece.x, piece.y + 1) {
        lemma_resting_row(rows, moved(piece, piece.x, piece.y + 1));
    }
}

/// A new game starts in a state that a game can be in.
pub proof fn lemma_initial_is_wf()
    ensures
        GameView::initial().wf(),
{
    lemma_empty_playfield();
}

/// Landing leads from one state that a game can be in to another.
pub proof fn lemma_land_preserves_wf(s: GameView, now: nat)
    requires
        s.wf(),
        now <= u64::MAX,
    ensures
        s.land(now).wf(),
{
    if let Some(p) = s.piece {
        lemma_merged_is_playfield(s.grid, p);
        lemma_cleared_is_playfield(merged(s.grid, p));
    }
}

/// A landing clears four rows at most.
pub proof fn lemma_landing_clears_at_most_four_rows(s: GameView, now: nat)
    requires
        s.wf(),
    ensures
        s.land(now).lines <= s.lines + 4,
        s.land(now).score <= s.score + line_bonus(4, s.level),
{
    if let Some(p) = s.piece {
        lemma_piece_completes_at_most_four_rows(s.grid, p);
    }
}

/// Without a falling piece the inputs of a frame change nothing and land
/// nothing. So the inputs that follow a landing in the same frame are
/// without effect.
pub proof fn lemma_frame_without_piece(s: GameView, inputs: Seq<Input>, now: nat)
    requires
        s.piece is None,
    ensures
        s.frame(inputs, now) == s,
        !s.frame_lands(inputs, now),
    decreases inputs.len(),
{
    if inputs.len() > 0 && inputs[0] != Input::Quit {
        lemma_frame_without_piece(s, inputs.drop_first(), now);
    }
}

/// A piece lands once in a frame at most: after the input that lands it the
/// state stays as that input left it.
pub proof fn lemma_frame_after_landing(s: GameView, inputs: Seq<Input>, now: nat)
    requires
        inputs.len() > 0,
        s.lands_on(inputs[0]),
    ensures
        s.frame(inputs, now) == s.input(inputs[0], now),
        s.frame_lands(inputs, now),
{
    lemma_frame_without_piece(s.input(inputs[0], now), inputs.drop_first(), now);
}

/// Every event leads from one state that a game can be in to another.
pub proof fn lemma_step_preserves_wf(s: GameView, event: Event)
    requires
        s.wf(),
    ensures
        s.step(event).wf(),
{
    match event {
        Event::Spawn { roll } => {},
        Event::Tick { now } => {
            lemma_land_preserves_wf(s, now as nat);
        },
        Event::Key { input, now } => {
            lemma_land_preserves_wf(s, now as nat);
            if let Some(p) = s.piece {
                lemma_next_state_in_range(p.kind, p.state);
                lemma_resting_row(s.grid, p);
                let rested = s.with_piece(Some(moved(p, p.x, resting_row(s.grid, p))));
                lemma_land_preserves_wf(rested, now as nat);
            }
        },
    }
}

/// No event lowers the score, the number of lines or the level.
pub proof fn lemma_step_never_lowers_counters(s: GameView, event: Event)
    requires
        s.wf(),
    ensures
        s.step(event).score >= s.score,
        s.step(event).lines >= s.lines,
        s.step(event).level >= s.level,
{
}

/// Over any sequence of events the score, the number of lines and the level
/// never go down, and the game stays in a state that a game can be in.
pub proof fn lemma_run_never_lowers_counters(s: GameView, events: Seq<Event>)
    requires
        s.wf(),
    ensures
        s.run(events).wf(),
        s.run(events).score >= s.score,
        s.run(events).lines >= s.lines,
        s.run(events).level >= s.level,
    decreases events.len(),
{
    if events.len() > 0 {
        lemma_run_never_lowers_counters(s, events.drop_last());
        let before = s.run(events.drop_last());
        lemma_step_preserves_wf(before, events.last());
        lemma_step_never_lowers_counters(before, events.last());
    }
}

/// Once the game is over no event changes anything.
pub proof fn lemma_game_over_is_final(s: GameView, event: Event)
    requires
        s.wf(),
        s.over,
    ensures
        s.step(event) == s,
{
}

/// A spawn that fails ends the game and leaves the playfield, the score, the
/// number of lines and the level as they were.
pub proof fn lemma_failed_spawn_ends_game(s: GameView, roll: nat)
    requires
        s.phase() == Phase::Spawning,
        !piece_fits(s.grid, spawn_piece(kind_of_roll(roll as int))),
    ensures
        s.spawn(roll).over,
        s.spawn(roll).phase() == Phase::GameOver,
        s.spawn(roll).grid == s.grid,
        s.spawn(roll).score == s.score,
        s.spawn(roll).lines == s.lines,
        s.spawn(roll).level == s.level,
{
}

/// The game speeds up with the level and never falls faster than once every
/// 100 ms.
pub proof fn lemma_fall_interval_shrinks(low: nat, high: nat)
    requires
        low <= high,
    ensures
        fall_interval(high) <= fall_interval(low),
        100 <= fall_interval(high) <= 1000,
{
}

/// More rows at once and a higher level never pay less, and rows cleared
/// together pay more than the same rows cleared one by one.
pub proof fn lemma_line_bonus_grows(rows: nat, more_rows: nat, level: nat, higher_level: nat)
    requires
        rows <= more_rows,
        level <= higher_level,
    ensures
        line_bonus(rows, level) <= line_bonus(more_rows, higher_level),
        line_bonus(2, level) >= 2 * line_bonus(1, level),
        line_bonus(3, level) >= 3 * line_bonus(1, level),
        line_bonus(4, level) >= 4 * line_bonus(1, level),
{
}

} // verus!
