//! The shape catalog: the seven tetrimino kinds and their rotation states.
//!
//! Every rotation state is a 4×4 bitmap. A cell holds 0 where the shape is
//! empty and the colour index of its kind (1 to 7) where it is filled.

use vstd::prelude::*;

verus! {

/// Side length of the square bitmap of a rotation state.
pub const SHAPE_SIZE: usize = 4;

pub const I_STATES: [[[u8; 4]; 4]; 2] = [
    [[1, 1, 1, 1], [0, 0, 0, 0], [0, 0, 0, 0], [0, 0, 0, 0]],
    [[0, 1, 0, 0], [0, 1, 0, 0], [0, 1, 0, 0], [0, 1, 0, 0]],
];

pub const O_STATES: [[[u8; 4]; 4]; 1] = [
    [[2, 2, 0, 0], [2, 2, 0, 0], [0, 0, 0, 0], [0, 0, 0, 0]],
];

pub const T_STATES: [[[u8; 4]; 4]; 4] = [
    [[3, 3, 3, 0], [0, 3, 0, 0], [0, 0, 0, 0], [0, 0, 0, 0]],
    [[0, 3, 0, 0], [3, 3, 0, 0], [0, 3, 0, 0], [0, 0, 0, 0]],
    [[0, 3, 0, 0], [3, 3, 3, 0], [0, 0, 0, 0], [0, 0, 0, 0]],
    [[0, 3, 0, 0], [0, 3, 3, 0], [0, 3, 0, 0], [0, 0, 0, 0]],
];

pub const S_STATES: [[[u8; 4]; 4]; 2] = [
    [[0, 4, 4, 0], [4, 4, 0, 0], [0, 0, 0, 0], [0, 0, 0, 0]],
    [[0, 4, 0, 0], [0, 4, 4, 0], [0, 0, 4, 0], [0, 0, 0, 0]],
];

pub const Z_STATES: [[[u8; 4]; 4]; 2] = [
    [[5, 5, 0, 0], [0, 5, 5, 0], [0, 0, 0, 0], [0, 0, 0, 0]],
    [[0, 0, 5, 0], [0, 5, 5, 0], [0, 5, 0, 0], [0, 0, 0, 0]],
];

pub const J_STATES: [[[u8; 4]; 4]; 4] = [
    [[6, 6, 6, 0], [6, 0, 0, 0], [0, 0, 0, 0], [0, 0, 0, 0]],
    [[6, 6, 0, 0], [0, 6, 0, 0], [0, 6, 0, 0], [0, 0, 0, 0]],
    [[0, 0, 6, 0], [6, 6, 6, 0], [0, 0, 0, 0], [0, 0, 0, 0]],
    [[6, 0, 0, 0], [6, 0, 0, 0], [6, 6, 0, 0], [0, 0, 0, 0]],
];

pub const L_STATES: [[[u8; 4]; 4]; 4] = [
    [[7, 7, 7, 0], [0, 0, 7, 0], [0, 0, 0, 0], [0, 0, 0, 0]],
    [[0, 7, 0, 0], [0, 7, 0, 0], [7, 7, 0, 0], [0, 0, 0, 0]],
    [[7, 0, 0, 0], [7, 7, 7, 0], [0, 0, 0, 0], [0, 0, 0, 0]],
    [[7, 7, 0, 0], [7, 0, 0, 0], [7, 0, 0, 0], [0, 0, 0, 0]],
];

/// One of the seven tetrimino kinds.
#[derive(Clone, Copy, Debug, PartialEq, Eq, Structural)]
pub enum TetriminoKind {
    I,
    O,
    T,
    S,
    Z,
    J,
    L,
}

/// The kind that a number selects: its remainder modulo seven, in the order
/// I, O, T, S, Z, J, L.
pub open spec fn kind_of_roll(roll: int) -> TetriminoKind {
    let k = roll % 7;
    if k == 0 {
        TetriminoKind::I
    } else if k == 1 {
        TetriminoKind::O
    } else if k == 2 {
        TetriminoKind::T
    } else if k == 3 {
        TetriminoKind::S
    } else if k == 4 {
        TetriminoKind::Z
    } else if k == 5 {
        TetriminoKind::J
    } else {
        TetriminoKind::L
    }
}

/// The colour index of a kind: 1 for I up to 7 for L.
pub open spec fn kind_color(kind: TetriminoKind) -> u8 {
    match kind {
        TetriminoKind::I => 1,
        TetriminoKind::O => 2,
        TetriminoKind::T => 3,
        TetriminoKind::S => 4,
        TetriminoKind::Z => 5,
        TetriminoKind::J => 6,
        TetriminoKind::L => 7,
    }
}

/// The number of rotation states of a kind.
pub open spec fn state_count(kind: TetriminoKind) -> int {
    match kind {
        TetriminoKind::I => 2,
        TetriminoKind::O => 1,
        TetriminoKind::T => 4,
        TetriminoKind::S => 2,
        TetriminoKind::Z => 2,
        TetriminoKind::J => 4,
        TetriminoKind::L => 4,
    }
}

/// The cell at (`row`, `col`) of rotation state `state` of `kind`. Outside the
/// bitmap, and for a state that the kind does not have, the cell is empty.
pub open spec fn shape_cell(kind: TetriminoKind, state: int, row: int, col: int) -> u8 {
    if 0 <= state < state_count(kind) && 0 <= row < 4 && 0 <= col < 4 {
        match kind {
            TetriminoKind::I => I_STATES[state][row][col],
            TetriminoKind::O => O_STATES[state][row][col],
            TetriminoKind::T => T_STATES[state][row][col],
            TetriminoKind::S => S_STATES[state][row][col],
            TetriminoKind::Z => Z_STATES[state][row][col],
            TetriminoKind::J => J_STATES[state][row][col],
            TetriminoKind::L => L_STATES[state][row][col],
        }
    } else {
        0
    }
}

/// The state that follows `state` when a piece of `kind` turns once.
pub open spec fn next_state(kind: TetriminoKind, state: int) -> int {
    (state + 1) % state_count(kind)
}

/// How many of the first `n` cells of a state, counted row by row, are filled.
pub open spec fn filled_cells(kind: TetriminoKind, state: int, n: nat) -> nat
    decreases n,
{
    if n == 0 {
        0
    } else {
        let i = (n - 1) as int;
        let here: nat = if shape_cell(kind, state, i / 4, i % 4) != 0 {
            1
        } else {
            0
        };
        filled_cells(kind, state, (n - 1) as nat) + here
    }
}

impl TetriminoKind {
    /// Selects a kind from an arbitrary number, such as a random draw.
    pub fn from_roll(roll: u64) -> (kind: TetriminoKind)
        ensures
            kind == kind_of_roll(roll as int),
    {
        let k: u64 = roll % 7;
        if k == 0 {
            TetriminoKind::I
        } else if k == 1 {
            TetriminoKind::O
        } else if k == 2 {
            TetriminoKind::T
        } else if k == 3 {
            TetriminoKind::S
        } else if k == 4 {
            TetriminoKind::Z
        } else if k == 5 {
            TetriminoKind::J
        } else {
            TetriminoKind::L
        }
    }

    /// The colour index with which the kind is drawn and stored.
    pub fn color(self) -> (c: u8)
        ensures
            c == kind_color(self),
            1 <= c <= 7,
    {
        match self {
            TetriminoKind::I => 1,
            TetriminoKind::O => 2,
            TetriminoKind::T => 3,
            TetriminoKind::S => 4,
            TetriminoKind::Z => 5,
            TetriminoKind::J => 6,
            TetriminoKind::L => 7,
        }
    }

    /// The number of rotation states of the kind.
    pub fn state_count(self) -> (n: u8)
        ensures
            n == state_count(self),
            1 <= n <= 4,
    {
        match self {
            TetriminoKind::I => 2,
            TetriminoKind::O => 1,
            TetriminoKind::T => 4,
            TetriminoKind::S => 2,
            TetriminoKind::Z => 2,
            TetriminoKind::J => 4,
            TetriminoKind::L => 4,
        }
    }

    /// Looks up one cell of one rotation state.
    pub fn cell(self, state: u8, row: usize, col: usize) -> (v: u8)
        ensures
            v == shape_cell(self, state as int, row as int, col as int),
    {
        if state >= self.state_count() || row >= 4 || col >= 4 {
            return 0;
        }
        let s: usize = state as usize;
        match self {
            TetriminoKind::I => I_STATES[s][row][col],
            TetriminoKind::O => O_STATES[s][row][col],
            TetriminoKind::T => T_STATES[s][row][col],
            TetriminoKind::S => S_STATES[s][row][col],
            TetriminoKind::Z => Z_STATES[s][row][col],
            TetriminoKind::J => J_STATES[s][row][col],
            TetriminoKind::L => L_STATES[s][row][col],
        }
    }
}

/// Every cell of the catalog is empty or holds the colour index of its kind.
pub proof fn lemma_cell_is_empty_or_color(kind: TetriminoKind, state: int, row: int, col: int)
    ensures
        shape_cell(kind, state, row, col) == 0 || shape_cell(kind, state, row, col) == kind_color(
            kind,
        ),
        1 <= kind_color(kind) <= 7,
{
}

/// Every rotation state of every kind fills exactly four cells.
pub proof fn lemma_state_has_four_cells(kind: TetriminoKind, state: int)
    requires
        0 <= state < state_count(kind),
    ensures
        filled_cells(kind, state, 16) == 4,
{
    reveal_with_fuel(filled_cells, 17);
}

/// Every rotation state of every kind has a filled cell in the top row of its
/// bitmap, within the first three columns.
pub proof fn lemma_top_row_is_filled(kind: TetriminoKind, state: int)
    requires
        0 <= state < state_count(kind),
    ensures
        shape_cell(kind, state, 0, 0) != 0 || shape_cell(kind, state, 0, 1) != 0 || shape_cell(
            kind,
            state,
            0,
            2,
        ) != 0,
{
}

/// Turning a piece leads to a rotation state that its kind has.
pub proof fn lemma_next_state_in_range(kind: TetriminoKind, state: int)
    requires
        0 <= state < state_count(kind),
    ensures
        0 <= next_state(kind, state) < state_count(kind),
        next_state(kind, state) == if state + 1 == state_count(kind) {
            0
        } else {
            state + 1
        },
{
}

} // verus!
