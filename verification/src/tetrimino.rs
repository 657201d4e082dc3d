//! A live tetrimino: a kind, one of its rotation states, and the position of
//! the top-left corner of its bitmap on the playfield.

use vstd::prelude::*;
use crate::grid::{fits, Grid};
use crate::shape::{next_state, shape_cell, state_count, TetriminoKind};

verus! {

/// What a piece is, as plain mathematical values.
pub struct PieceView {
    pub kind: TetriminoKind,
    pub state: int,
    pub x: int,
    pub y: int,
}

/// The piece at another position.
pub open spec fn moved(piece: PieceView, x: int, y: int) -> PieceView {
    PieceView { kind: piece.kind, state: piece.state, x, y }
}

/// The piece in the rotation state that follows its present one.
pub open spec fn turned(piece: PieceView) -> PieceView {
    PieceView {
        kind: piece.kind,
        state: next_state(piece.kind, piece.state),
        x: piece.x,
        y: piece.y,
    }
}

/// Whether the piece stands on free positions only.
pub open spec fn piece_fits(rows: Seq<Seq<u8>>, piece: PieceView) -> bool {
    fits(rows, piece.kind, piece.state, piece.x, piece.y)
}

/// A falling piece. Its rotation state is always one that its kind has.
#[derive(Clone, Copy, Debug)]
pub struct Tetrimino {
    kind: TetriminoKind,
    current_state: u8,
    x: i32,
    y: i32,
}

impl View for Tetrimino {
    type V = PieceView;

    closed spec fn view(&self) -> PieceView {
        PieceView {
            kind: self.kind,
            state: self.current_state as int,
            x: self.x as int,
            y: self.y as int,
        }
    }
}

impl Tetrimino {
    #[verifier::type_invariant]
    spec fn state_in_range(self) -> bool {
        (self.current_state as int) < state_count(self.kind)
    }

    /// A piece of `kind` in its first rotation state, anchored at (`x`, `y`).
    pub fn new(kind: TetriminoKind, x: i32, y: i32) -> (piece: Tetrimino)
        ensures
            piece@ == (PieceView { kind, state: 0, x: x as int, y: y as int }),
    {
        Tetrimino { kind, current_state: 0, x, y }
    }

    /// The kind of the piece.
    pub fn kind(&self) -> (kind: TetriminoKind)
        ensures
            kind == self@.kind,
    {
        self.kind
    }

    /// The index of the present rotation state.
    pub fn current_state(&self) -> (state: u8)
        ensures
            state == self@.state,
            0 <= self@.state < state_count(self@.kind),
    {
        proof {
            use_type_invariant(self);
        }
        self.current_state
    }

    /// The column of the left edge of the bitmap.
    pub fn x(&self) -> (x: i32)
        ensures
            x == self@.x,
    {
        self.x
    }

    /// The row of the top edge of the bitmap.
    pub fn y(&self) -> (y: i32)
        ensures
            y == self@.y,
    {
        self.y
    }
    /// The cell at (`row`, `col`) of the bitmap of the present rotation state.
    pub fn cell(&self, row: usize, col: usize) -> (v: u8)
        ensures
            v == shape_cell(self@.kind, self@.state, row as int, col as int),
    {
        self.kind.cell(self.current_state, row, col)
    }

    /// Whether the piece, in its present rotation state, could stand at
    /// (`x`, `y`): every filled cell of its bitmap must land between the walls,
    /// above the floor, and on an empty cell or above the top row.
    pub fn test_position(&self, grid: &Grid, x: i32, y: i32) -> (b: bool)
        ensures
            b == fits(grid@, self@.kind, self@.state, x as int, y as int),
    {
        grid.can_place(self.kind, self.current_state, x, y)
    }

    /// Whether the piece can stand where it is.
    pub fn test_current_position(&self, grid: &Grid) -> (b: bool)
        ensures
            b == piece_fits(grid@, self@),
    {
        self.test_position(grid, self.x, self.y)
    }

    /// Moves the piece to (`new_x`, `new_y`) if it can stand there. A rejected
    /// move leaves the piece as it was.
    pub fn change_position(&mut self, grid: &Grid, new_x: i32, new_y: i32) -> (b: bool)
        ensures
            b == fits(grid@, old(self)@.kind, old(self)@.state, new_x as int, new_y as int),
            b ==> final(self)@ == moved(old(self)@, new_x as int, new_y as int),
            !b ==> final(self)@ == old(self)@,
    {
        if self.test_position(grid, new_x, new_y) {
            proof {
                use_type_invariant(&*self);
            }
            self.x = new_x;
            self.y = new_y;
            true
        } else {
            false
        }
    }

    /// Turns the piece to its next rotation state, cyclically, if that state
    /// can stand at the unchanged position. No other position is tried; a
    /// rejected rotation leaves the piece as it was.
    pub fn rotate(&mut self, grid: &Grid) -> (b: bool)
        ensures
            b == piece_fits(grid@, turned(old(self)@)),
            b ==> final(self)@ == turned(old(self)@),
            !b ==> final(self)@ == old(self)@,
    {
        proof {
            use_type_invariant(&*self);
        }
        let count = self.kind.state_count();
        let next: u8 = if self.current_state + 1 >= count {
            0
        } else {
            self.current_state + 1
        };
        if grid.can_place(self.kind, next, self.x, self.y) {
            self.current_state = next;
            true
        } else {
            false
        }
    }
}

} // verus!
