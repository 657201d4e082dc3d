//! The playfield: ten columns by sixteen rows of colour indices.
//!
//! Row 0 is the top row. A cell holds 0 while it is empty and the colour index
//! (1 to 7) of the piece that was merged into it otherwise.

use vstd::prelude::*;
use crate::shape::{
    kind_color, lemma_cell_is_empty_or_color, lemma_top_row_is_filled, shape_cell, state_count,
    TetriminoKind,
};
use crate::tetrimino::{PieceView, Tetrimino};

verus! {

/// Number of columns of the playfield.
pub const GRID_WIDTH: usize = 10;

/// Number of rows of the playfield.
pub const GRID_HEIGHT: usize = 16;

/// A sequence of rows has the dimensions and the cell values of a playfield.
pub open spec fn is_playfield(rows: Seq<Seq<u8>>) -> bool {
    &&& rows.len() == 16
    &&& forall|r: int| 0 <= r < 16 ==> (#[trigger] rows[r]).len() == 10
    &&& forall|r: int, c: int| 0 <= r < 16 && 0 <= c < 10 ==> #[trigger] rows[r][c] <= 7
}

/// A row without blocks.
pub open spec fn empty_row() -> Seq<u8> {
    Seq::new(10, |c: int| 0u8)
}

/// The playfield without blocks.
pub open spec fn empty_playfield() -> Seq<Seq<u8>> {
    Seq::new(16, |r: int| empty_row())
}

/// Whether a piece cell may not go to (`col`, `row`). Beyond the left and right
/// walls and below the floor everything counts as occupied. Above the top row,
/// between the walls, everything is free.
pub open spec fn occupied(rows: Seq<Seq<u8>>, col: int, row: int) -> bool {
    col < 0 || col >= 10 || row >= 16 || (row >= 0 && rows[row][col] != 0)
}

/// Whether rotation state `state` of `kind`, with the top-left corner of its
/// bitmap at column `x` and row `y`, has every filled cell on a free position.
pub open spec fn fits(rows: Seq<Seq<u8>>, kind: TetriminoKind, state: int, x: int, y: int) -> bool {
    forall|r: int, c: int|
        0 <= r < 4 && 0 <= c < 4 && #[trigger] shape_cell(kind, state, r, c) != 0 ==> !occupied(
            rows,
            x + c,
            y + r,
        )
}

/// Whether the piece has a filled cell at (`col`, `row`) of the playfield.
pub open spec fn covers(piece: PieceView, col: int, row: int) -> bool {
    shape_cell(piece.kind, piece.state, row - piece.y, col - piece.x) != 0
}

/// The playfield after the piece has been written into it: the cells that the
/// piece covers hold its colour index, all others are unchanged.
pub open spec fn merged(rows: Seq<Seq<u8>>, piece: PieceView) -> Seq<Seq<u8>> {
    Seq::new(
        16,
        |r: int|
            Seq::new(
                10,
                |c: int|
                    if covers(piece, c, r) {
                        kind_color(piece.kind)
                    } else {
                        rows[r][c]
                    },
            ),
    )
}

/// Whether every cell of a row holds a block.
pub open spec fn row_complete(row: Seq<u8>) -> bool {
    forall|c: int| 0 <= c < row.len() ==> #[trigger] row[c] != 0
}

/// The test that selects the complete rows.
pub open spec fn complete_rows() -> spec_fn(Seq<u8>) -> bool {
    |row: Seq<u8>| row_complete(row)
}

/// The test that selects the rows with at least one empty cell.
pub open spec fn incomplete_rows() -> spec_fn(Seq<u8>) -> bool {
    |row: Seq<u8>| !row_complete(row)
}

/// The number of complete rows.
pub open spec fn complete_row_count(rows: Seq<Seq<u8>>) -> nat {
    rows.filter(complete_rows()).len()
}

/// The playfield after its complete rows have been taken out: the incomplete
/// rows in their order, moved down, below one new empty row for each row that
/// was taken out.
pub open spec fn cleared(rows: Seq<Seq<u8>>) -> Seq<Seq<u8>> {
    Seq::new(complete_row_count(rows), |r: int| empty_row()) + rows.filter(incomplete_rows())
}

/// Filtering a range of a sequence handles the first element of the range and
/// then the rest of it.
proof fn lemma_filter_range_first<A>(s: Seq<A>, pred: spec_fn(A) -> bool, from: int, to: int)
    requires
        0 <= from < to <= s.len(),
    ensures
        s.subrange(from, to).filter(pred) == if pred(s[from]) {
            seq![s[from]] + s.subrange(from + 1, to).filter(pred)
        } else {
            s.subrange(from + 1, to).filter(pred)
        },
{
    let head = seq![s[from]];
    let tail = s.subrange(from + 1, to);
    assert(s.subrange(from, to) =~= head + tail);
    Seq::filter_distributes_over_add(head, tail, pred);
    reveal_with_fuel(Seq::filter, 2);
    assert(head.drop_last() =~= Seq::<A>::empty());
    assert(head.last() == s[from]);
    if pred(s[from]) {
        assert(head.filter(pred) =~= head);
    } else {
        assert(head.filter(pred) =~= Seq::<A>::empty());
        assert(Seq::<A>::empty() + tail.filter(pred) =~= tail.filter(pred));
    }
}

/// Each row is complete or incomplete, so the two selections share out the
/// rows between them.
pub proof fn lemma_rows_partition(rows: Seq<Seq<u8>>)
    ensures
        rows.filter(complete_rows()).len() + rows.filter(incomplete_rows()).len() == rows.len(),
    decreases rows.len(),
{
    reveal(Seq::filter);
    if rows.len() > 0 {
        lemma_rows_partition(rows.drop_last());
    }
}

/// Clearing keeps the number of rows, puts one empty row at the top for each
/// complete row, keeps the incomplete rows in their order below them, and
/// leaves no complete row behind.
pub proof fn lemma_cleared_rows(rows: Seq<Seq<u8>>)
    requires
        forall|r: int| 0 <= r < rows.len() ==> (#[trigger] rows[r]).len() == 10,
    ensures
        cleared(rows).len() == rows.len(),
        complete_row_count(rows) <= rows.len(),
        forall|r: int| 0 <= r < complete_row_count(rows) ==> #[trigger] cleared(rows)[r] == empty_row(),
        forall|r: int|
            complete_row_count(rows) <= r < rows.len() ==> #[trigger] cleared(rows)[r]
                == rows.filter(incomplete_rows())[r - complete_row_count(rows)],
        forall|r: int| 0 <= r < rows.len() ==> !row_complete(#[trigger] cleared(rows)[r]),
        complete_row_count(cleared(rows)) == 0,
{
    lemma_rows_partition(rows);
    let n = complete_row_count(rows);
    let kept = rows.filter(incomplete_rows());
    let after = cleared(rows);
    assert forall|r: int| 0 <= r < rows.len() implies !row_complete(#[trigger] after[r]) by {
        if r < n {
            assert(after[r] == empty_row());
            assert(empty_row()[0] == 0);
        } else {
            assert(after[r] == kept[r - n]);
            rows.lemma_filter_pred(incomplete_rows(), r - n);
        }
    }
    lemma_none_selected(after, complete_rows());
}

/// A selection is empty when no element passes its test.
proof fn lemma_none_selected<A>(s: Seq<A>, pred: spec_fn(A) -> bool)
    requires
        forall|i: int| 0 <= i < s.len() ==> !pred(#[trigger] s[i]),
    ensures
        s.filter(pred).len() == 0,
    decreases s.len(),
{
    reveal(Seq::filter);
    if s.len() > 0 {
        let front = s.drop_last();
        assert forall|i: int| 0 <= i < front.len() implies !pred(#[trigger] front[i]) by {
            assert(front[i] == s[i]);
        }
        lemma_none_selected(front, pred);
    }
}

/// A state that fits has its bitmap anchored close to the playfield: at most
/// three columns left of it, not right of it, and not below it.
pub proof fn lemma_fits_bounds(rows: Seq<Seq<u8>>, kind: TetriminoKind, state: int, x: int, y: int)
    requires
        0 <= state < state_count(kind),
        fits(rows, kind, state, x, y),
    ensures
        -3 <= x <= 9,
        y <= 15,
{
    lemma_top_row_is_filled(kind, state);
}

/// Merging a piece into a playfield gives a playfield.
pub proof fn lemma_merged_is_playfield(rows: Seq<Seq<u8>>, piece: PieceView)
    requires
        is_playfield(rows),
    ensures
        is_playfield(merged(rows, piece)),
{
}

/// Clearing a playfield gives a playfield without complete rows.
pub proof fn lemma_cleared_is_playfield(rows: Seq<Seq<u8>>)
    requires
        is_playfield(rows),
    ensures
        is_playfield(cleared(rows)),
        complete_row_count(cleared(rows)) == 0,
        complete_row_count(rows) <= 16,
{
    lemma_cleared_rows(rows);
    let n = complete_row_count(rows);
    let kept = rows.filter(incomplete_rows());
    let after = cleared(rows);
    assert forall|r: int| 0 <= r < 16 implies (#[trigger] after[r]).len() == 10 && (forall|c: int|
        0 <= c < 10 ==> #[trigger] after[r][c] <= 7) by {
        if r >= n {
            assert(after[r] == kept[r - n]);
            assert(kept.contains(kept[r - n]));
            rows.lemma_filter_contains_rev(incomplete_rows(), kept[r - n]);
            let k = choose|k: int| 0 <= k < rows.len() && rows[k] == kept[r - n];
            assert(after[r] == rows[k]);
            assert forall|c: int| 0 <= c < 10 implies #[trigger] after[r][c] <= 7 by {
                assert(rows[k][c] <= 7);
            }
        }
    }
}

/// The empty playfield is a playfield, and none of its rows is complete.
pub proof fn lemma_empty_playfield()
    ensures
        is_playfield(empty_playfield()),
        complete_row_count(empty_playfield()) == 0,
{
    let rows = empty_playfield();
    assert forall|r: int| 0 <= r < rows.len() implies !complete_rows()(#[trigger] rows[r]) by {
        assert(rows[r][0] == 0);
    }
    lemma_none_selected(rows, complete_rows());
}

/// What merging does, cell by cell: a cell of the playfield that the piece
/// covers holds the colour index of the piece afterwards, which is not 0, and
/// every other cell holds what it held before.
pub proof fn lemma_merge_writes_the_piece(rows: Seq<Seq<u8>>, piece: PieceView)
    ensures
        forall|r: int, c: int|
            0 <= r < 4 && 0 <= c < 4 && #[trigger] shape_cell(piece.kind, piece.state, r, c) != 0
                && 0 <= piece.y + r < 16 && 0 <= piece.x + c < 10 ==> merged(rows, piece)[piece.y
                + r][piece.x + c] == kind_color(piece.kind) && merged(rows, piece)[piece.y
                + r][piece.x + c] == shape_cell(piece.kind, piece.state, r, c),
        forall|row: int, col: int|
            0 <= row < 16 && 0 <= col < 10 && !covers(piece, col, row) ==> #[trigger] merged(
                rows,
                piece,
            )[row][col] == rows[row][col],
        1 <= kind_color(piece.kind) <= 7,
{
    assert forall|r: int, c: int|
        0 <= r < 4 && 0 <= c < 4 && #[trigger] shape_cell(piece.kind, piece.state, r, c) != 0 && 0
            <= piece.y + r < 16 && 0 <= piece.x + c < 10 implies merged(rows, piece)[piece.y
        + r][piece.x + c] == kind_color(piece.kind) && merged(rows, piece)[piece.y + r][piece.x + c]
        == shape_cell(piece.kind, piece.state, r, c) by {
        lemma_cell_is_empty_or_color(piece.kind, piece.state, r, c);
        assert(covers(piece, piece.x + c, piece.y + r));
    }
}

/// A piece that fits and stands below the top edge lies within the playfield
/// with all its cells, on cells that were empty.
pub proof fn lemma_fitting_piece_lies_on_empty_cells(rows: Seq<Seq<u8>>, piece: PieceView)
    requires
        fits(rows, piece.kind, piece.state, piece.x, piece.y),
        piece.y >= 0,
    ensures
        forall|r: int, c: int|
            0 <= r < 4 && 0 <= c < 4 && #[trigger] shape_cell(piece.kind, piece.state, r, c) != 0
                ==> 0 <= piece.y + r < 16 && 0 <= piece.x + c < 10 && rows[piece.y + r][piece.x
                + c] == 0,
{
}

/// Where no row is counted as complete, no row is complete.
pub proof fn lemma_no_complete_row(rows: Seq<Seq<u8>>, r: int)
    requires
        complete_row_count(rows) == 0,
        0 <= r < rows.len(),
    ensures
        !row_complete(rows[r]),
{
    if row_complete(rows[r]) {
        rows.lemma_filter_contains(complete_rows(), r);
    }
}

/// A selection whose elements all come from `span` neighbouring places has at
/// most `span` elements.
proof fn lemma_selected_from_span<A>(s: Seq<A>, pred: spec_fn(A) -> bool, from: int, span: int)
    requires
        span >= 0,
        forall|i: int| 0 <= i < s.len() && pred(#[trigger] s[i]) ==> from <= i < from + span,
    ensures
        s.filter(pred).len() <= span,
        s.filter(pred).len() <= if s.len() > from {
            s.len() - from
        } else {
            0
        },
    decreases s.len(),
{
    reveal(Seq::filter);
    if s.len() > 0 {
        let front = s.drop_last();
        assert forall|i: int| 0 <= i < front.len() && pred(#[trigger] front[i]) implies from <= i
            < from + span by {
            assert(front[i] == s[i]);
        }
        lemma_selected_from_span(front, pred, from, span);
        if pred(s.last()) {
            assert(pred(s[s.len() - 1]));
        }
    }
}

/// One piece completes at most four rows: merging a piece into a playfield
/// without complete rows leaves at most four complete rows.
pub proof fn lemma_piece_completes_at_most_four_rows(rows: Seq<Seq<u8>>, piece: PieceView)
    requires
        is_playfield(rows),
        complete_row_count(rows) == 0,
    ensures
        complete_row_count(merged(rows, piece)) <= 4,
{
    let after = merged(rows, piece);
    assert forall|i: int| 0 <= i < after.len() && complete_rows()(#[trigger] after[i]) implies piece.y
        <= i < piece.y + 4 by {
        if !(piece.y <= i < piece.y + 4) {
            assert(after[i] =~= rows[i]);
            lemma_no_complete_row(rows, i);
        }
    }
    lemma_selected_from_span(after, complete_rows(), piece.y, 4);
}

/// The playfield. Every cell holds 0 or a colour index from 1 to 7.
#[derive(Clone, Copy, Debug)]
pub struct Grid {
    cells: [[u8; GRID_WIDTH]; GRID_HEIGHT],
}

impl View for Grid {
    type V = Seq<Seq<u8>>;

    closed spec fn view(&self) -> Seq<Seq<u8>> {
        Seq::new(16, |r: int| self.cells@[r]@)
    }
}

impl Grid {
    #[verifier::type_invariant]
    spec fn cells_are_colors(self) -> bool {
        forall|r: int, c: int| 0 <= r < 16 && 0 <= c < 10 ==> #[trigger] self.cells@[r]@[c] <= 7
    }

    /// The view of any grid has sixteen rows of ten cells.
    pub proof fn lemma_dimensions(self)
        ensures
            self@.len() == 16,
            forall|r: int| 0 <= r < 16 ==> (#[trigger] self@[r]).len() == 10,
    {
    }

    /// An empty playfield.
    pub fn new() -> (grid: Grid)
        ensures
            grid@ == empty_playfield(),
            is_playfield(grid@),
    {
        let grid = Grid { cells: [[0u8; 10]; 16] };
        assert(grid@ =~~= empty_playfield());
        grid
    }

    /// A playfield with the given rows, if they are sixteen rows of ten cells
    /// that each hold 0 or a colour index.
    pub fn from_rows(rows: &Vec<Vec<u8>>) -> (grid: Option<Grid>)
        ensures
            grid.is_some() == is_playfield(rows.deep_view()),
            grid matches Some(g) ==> g@ == rows.deep_view(),
    {
        let ghost want = rows.deep_view();
        if rows.len() != 16 {
            return None;
        }
        let mut cells: [[u8; 10]; 16] = [[0u8; 10]; 16];
        let mut r: usize = 0;
        while r < 16
            invariant
                r <= 16,
                rows.len() == 16,
                want.len() == 16,
                want == rows.deep_view(),
                forall|k: int| 0 <= k < r ==> (#[trigger] want[k]).len() == 10,
                forall|k: int, c: int| 0 <= k < r && 0 <= c < 10 ==> #[trigger] cells@[k]@[c] == want[k][c],
                forall|k: int, c: int| 0 <= k < 16 && 0 <= c < 10 ==> #[trigger] cells@[k]@[c] <= 7,
            decreases 16 - r,
        {
            let row = &rows[r];
            assert(want[r as int] == row@);
            if row.len() != 10 {
                return None;
            }
            let mut c: usize = 0;
            while c < 10
                invariant
                    r < 16,
                    c <= 10,
                    row@.len() == 10,
                    want.len() == 16,
                    want == rows.deep_view(),
                    want[r as int] == row@,
                    forall|k: int| 0 <= k < r ==> (#[trigger] want[k]).len() == 10,
                    forall|k: int, j: int|
                        0 <= k < r && 0 <= j < 10 ==> #[trigger] cells@[k]@[j] == want[k][j],
                    forall|j: int| 0 <= j < c ==> #[trigger] cells@[r as int]@[j] == row@[j],
                    forall|k: int, j: int| 0 <= k < 16 && 0 <= j < 10 ==> #[trigger] cells@[k]@[j] <= 7,
                decreases 10 - c,
            {
                let v = row[c];
                if v > 7 {
                    assert(want[r as int][c as int] > 7);
                    return None;
                }
                cells[r][c] = v;
                c += 1;
            }
            r += 1;
        }
        let grid = Grid { cells };
        assert(grid@ =~~= want);
        Some(grid)
    }

    /// The rows of the playfield, top row first.
    pub fn to_rows(&self) -> (rows: Vec<Vec<u8>>)
        ensures
            rows.deep_view() == self@,
            is_playfield(self@),
    {
        proof {
            use_type_invariant(self);
        }
        let mut rows: Vec<Vec<u8>> = Vec::new();
        let mut r: usize = 0;
        while r < 16
            invariant
                r <= 16,
                rows.len() == r,
                forall|k: int| 0 <= k < r ==> (#[trigger] rows@[k])@ == self.cells@[k]@,
            decreases 16 - r,
        {
            let mut row: Vec<u8> = Vec::new();
            let mut c: usize = 0;
            while c < 10
                invariant
                    r < 16,
                    c <= 10,
                    row.len() == c,
                    forall|j: int| 0 <= j < c ==> #[trigger] row@[j] == self.cells@[r as int]@[j],
                decreases 10 - c,
            {
                row.push(self.cells[r][c]);
                c += 1;
            }
            assert(row@ =~= self.cells@[r as int]@);
            rows.push(row);
            r += 1;
        }
        assert(rows.deep_view() =~~= self@);
        rows
    }

    /// The colour index stored at (`col`, `row`), or `None` outside the
    /// playfield.
    pub fn cell(&self, col: usize, row: usize) -> (v: Option<u8>)
        ensures
            v.is_some() == (col < 10 && row < 16),
            v matches Some(color) ==> color == self@[row as int][col as int] && color <= 7,
    {
        if col < 10 && row < 16 {
            proof {
                use_type_invariant(self);
            }
            Some(self.cells[row][col])
        } else {
            None
        }
    }

    /// Bounds-checked occupancy query.
    pub fn is_occupied(&self, col: i64, row: i64) -> (b: bool)
        ensures
            b == occupied(self@, col as int, row as int),
    {
        if col < 0 || col >= 10 || row >= 16 {
            true
        } else if row < 0 {
            false
        } else {
            self.cells[row as usize][col as usize] != 0
        }
    }

    /// Whether a rotation state of a kind can stand with its bitmap anchored at
    /// (`x`, `y`): the one placement rule that movement and rotation share.
    pub fn can_place(&self, kind: TetriminoKind, state: u8, x: i32, y: i32) -> (b: bool)
        ensures
            b == fits(self@, kind, state as int, x as int, y as int),
    {
        let mut r: usize = 0;
        while r < 4
            invariant
                r <= 4,
                forall|rr: int, cc: int|
                    0 <= rr < r && 0 <= cc < 4 && #[trigger] shape_cell(kind, state as int, rr, cc)
                        != 0 ==> !occupied(self@, x + cc, y + rr),
            decreases 4 - r,
        {
            let mut c: usize = 0;
            while c < 4
                invariant
                    r < 4,
                    c <= 4,
                    forall|rr: int, cc: int|
                        0 <= rr < r && 0 <= cc < 4 && #[trigger] shape_cell(
                            kind,
                            state as int,
                            rr,
                            cc,
                        ) != 0 ==> !occupied(self@, x + cc, y + rr),
                    forall|cc: int|
                        0 <= cc < c && #[trigger] shape_cell(kind, state as int, r as int, cc) != 0
                            ==> !occupied(self@, x + cc, y + r),
                decreases 4 - c,
            {
                if kind.cell(state, r, c) != 0 && self.is_occupied(
                    x as i64 + c as i64,
                    y as i64 + r as i64,
                ) {
                    assert(shape_cell(kind, state as int, r as int, c as int) != 0);
                    return false;
                }
                c += 1;
            }
            r += 1;
        }
        true
    }
    /// Writes the piece into the playfield. Cells of the piece that lie outside
    /// the playfield are dropped. The position is not validated here: the
    /// caller merges a piece where it last stood.
    pub fn merge(&mut self, piece: &Tetrimino)
        ensures
            final(self)@ == merged(old(self)@, piece@),
    {
        let kind = piece.kind();
        let state = piece.current_state();
        let x = piece.x();
        let y = piece.y();
        let ghost before = *self;
        let ghost p = piece@;
        let mut r: usize = 0;
        while r < 4
            invariant
                r <= 4,
                p.kind == kind,
                p.state == state,
                p.x == x,
                p.y == y,
                forall|row: int, col: int|
                    0 <= row < 16 && 0 <= col < 10 ==> #[trigger] self.cells@[row]@[col] == if row
                        - y < r && covers(p, col, row) {
                        kind_color(kind)
                    } else {
                        before.cells@[row]@[col]
                    },
            decreases 4 - r,
        {
            let mut c: usize = 0;
            while c < 4
                invariant
                    r < 4,
                    c <= 4,
                    p.kind == kind,
                    p.state == state,
                    p.x == x,
                    p.y == y,
                    forall|row: int, col: int|
                        0 <= row < 16 && 0 <= col < 10 ==> #[trigger] self.cells@[row]@[col] == if (
                        row - y < r || (row - y == r && col - x < c)) && covers(p, col, row) {
                            kind_color(kind)
                        } else {
                            before.cells@[row]@[col]
                        },
                decreases 4 - c,
            {
                let v = kind.cell(state, r, c);
                let col: i64 = x as i64 + c as i64;
                let row: i64 = y as i64 + r as i64;
                if v != 0 && 0 <= col && col < 10 && 0 <= row && row < 16 {
                    proof {
                        use_type_invariant(&*self);
                        lemma_cell_is_empty_or_color(kind, state as int, r as int, c as int);
                    }
                    self.cells[row as usize][col as usize] = v;
                }
                c += 1;
            }
            r += 1;
        }
        assert(self@ =~~= merged(before@, p));
    }

    /// Removes every complete row at once, moves the rows above them down and
    /// puts as many empty rows at the top. Returns the number of rows removed.
    pub fn clear_completed_rows(&mut self) -> (count: usize)
        ensures
            count == complete_row_count(old(self)@),
            final(self)@ == cleared(old(self)@),
            final(self)@.len() == old(self)@.len(),
            count <= 16,
    {
        let ghost before = self@;
        let mut out: [[u8; 10]; 16] = [[0u8; 10]; 16];
        let mut r: usize = 16;
        let mut w: usize = 16;
        proof {
            assert(before.subrange(16, 16) =~= Seq::<Seq<u8>>::empty());
            reveal(Seq::filter);
        }
        while r > 0
            invariant
                r <= w <= 16,
                before == self@,
                w - r == before.subrange(r as int, 16).filter(complete_rows()).len(),
                16 - w == before.subrange(r as int, 16).filter(incomplete_rows()).len(),
                forall|k: int|
                    w <= k < 16 ==> (#[trigger] out@[k])@ == before.subrange(r as int, 16).filter(
                        incomplete_rows(),
                    )[k - w],
                forall|k: int, c: int| 0 <= k < w && 0 <= c < 10 ==> #[trigger] out@[k]@[c] == 0,
                forall|k: int, c: int| 0 <= k < 16 && 0 <= c < 10 ==> #[trigger] out@[k]@[c] <= 7,
            decreases r,
        {
            r -= 1;
            proof {
                use_type_invariant(&*self);
                lemma_filter_range_first(before, complete_rows(), r as int, 16);
                lemma_filter_range_first(before, incomplete_rows(), r as int, 16);
                assert(before[r as int] == self.cells@[r as int]@);
            }
            if !row_is_complete(&self.cells[r]) {
                w -= 1;
                out[w] = self.cells[r];
            }
        }
        self.cells = out;
        proof {
            assert(before.subrange(0, 16) =~= before);
            lemma_rows_partition(before);
            assert(self@ =~~= cleared(before));
        }
        w
    }
}

/// Whether every cell of a stored row holds a block.
fn row_is_complete(row: &[u8; 10]) -> (b: bool)
    ensures
        b == row_complete(row@),
{
    let mut c: usize = 0;
    while c < 10
        invariant
            c <= 10,
            forall|cc: int| 0 <= cc < c ==> #[trigger] row@[cc] != 0,
        decreases 10 - c,
    {
        if row[c] == 0 {
            return false;
        }
        c += 1;
    }
    true
}

} // verus!
