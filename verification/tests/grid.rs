use tetris::grid::Grid;
use tetris::shape::TetriminoKind;
use tetris::tetrimino::Tetrimino;

fn empty_rows() -> Vec<Vec<u8>> {
    vec![vec![0u8; 10]; 16]
}

#[test]
fn a_new_grid_is_empty() {
    let grid = Grid::new();
    assert_eq!(grid.to_rows(), empty_rows());
    assert_eq!(grid.cell(0, 0), Some(0));
    assert_eq!(grid.cell(9, 15), Some(0));
}

#[test]
fn cell_is_none_outside_the_grid() {
    let grid = Grid::new();
    assert_eq!(grid.cell(10, 0), None);
    assert_eq!(grid.cell(0, 16), None);
    assert_eq!(grid.cell(usize::MAX, usize::MAX), None);
}

#[test]
fn walls_and_floor_are_occupied_and_the_sky_is_free() {
    let grid = Grid::new();
    assert!(!grid.is_occupied(0, 0));
    assert!(!grid.is_occupied(9, 15));
    assert!(grid.is_occupied(-1, 5));
    assert!(grid.is_occupied(10, 5));
    assert!(grid.is_occupied(3, 16));
    assert!(!grid.is_occupied(3, -1));
    assert!(!grid.is_occupied(3, i64::MIN));
    assert!(grid.is_occupied(-1, -1));
    assert!(grid.is_occupied(10, -3));
    assert!(grid.is_occupied(i64::MAX, i64::MAX));
    assert!(grid.is_occupied(i64::MIN, 0));
}

#[test]
fn a_block_is_occupied() {
    let mut rows = empty_rows();
    rows[7][2] = 5;
    let grid = Grid::from_rows(&rows).unwrap();
    assert!(grid.is_occupied(2, 7));
    assert!(!grid.is_occupied(7, 2));
    assert_eq!(grid.cell(2, 7), Some(5));
}

#[test]
fn from_rows_keeps_the_rows() {
    let mut rows = empty_rows();
    rows[15] = vec![1, 2, 3, 4, 5, 6, 7, 0, 1, 2];
    rows[0][9] = 7;
    let grid = Grid::from_rows(&rows).unwrap();
    assert_eq!(grid.to_rows(), rows);
}

#[test]
fn from_rows_refuses_wrong_dimensions_and_colors() {
    assert!(Grid::from_rows(&vec![vec![0u8; 10]; 15]).is_none());
    assert!(Grid::from_rows(&vec![vec![0u8; 10]; 17]).is_none());
    assert!(Grid::from_rows(&Vec::new()).is_none());
    let mut short = empty_rows();
    short[3] = vec![0u8; 9];
    assert!(Grid::from_rows(&short).is_none());
    let mut long = empty_rows();
    long[15] = vec![0u8; 11];
    assert!(Grid::from_rows(&long).is_none());
    let mut color = empty_rows();
    color[4][4] = 8;
    assert!(Grid::from_rows(&color).is_none());
    color[4][4] = 7;
    assert!(Grid::from_rows(&color).is_some());
}

#[test]
fn can_place_is_the_rule_for_every_state() {
    let mut rows = empty_rows();
    rows[10][5] = 1;
    let grid = Grid::from_rows(&rows).unwrap();
    // The upright I fills column x + 1, rows y to y + 3.
    assert!(grid.can_place(TetriminoKind::I, 1, 3, 0));
    assert!(grid.can_place(TetriminoKind::I, 1, 4, 6));
    assert!(!grid.can_place(TetriminoKind::I, 1, 4, 7));
    assert!(!grid.can_place(TetriminoKind::I, 1, 4, 10));
    assert!(grid.can_place(TetriminoKind::I, 1, 4, 11));
    assert!(grid.can_place(TetriminoKind::I, 1, -1, 12));
    assert!(!grid.can_place(TetriminoKind::I, 1, -2, 12));
    assert!(grid.can_place(TetriminoKind::I, 1, 8, 12));
    assert!(!grid.can_place(TetriminoKind::I, 1, 9, 12));
    assert!(!grid.can_place(TetriminoKind::I, 1, 0, 13));
    // The flat I fills row y, columns x to x + 3.
    assert!(grid.can_place(TetriminoKind::I, 0, 6, 15));
    assert!(!grid.can_place(TetriminoKind::I, 0, 7, 15));
    assert!(!grid.can_place(TetriminoKind::I, 0, 6, 16));
    assert!(grid.can_place(TetriminoKind::I, 0, 0, -40));
    assert!(!grid.can_place(TetriminoKind::I, 0, -1, -40));
    assert!(!grid.can_place(TetriminoKind::I, 0, i32::MAX, i32::MAX));
    assert!(!grid.can_place(TetriminoKind::I, 0, i32::MIN, i32::MIN));
    // A state that the kind does not have has no cells at all.
    assert!(grid.can_place(TetriminoKind::I, 2, 100, 100));
}

#[test]
fn merge_writes_the_cells_of_the_piece_and_no_others() {
    let mut rows = empty_rows();
    rows[15][0] = 4;
    let mut grid = Grid::from_rows(&rows).unwrap();
    let piece = Tetrimino::new(TetriminoKind::T, 2, 13);
    grid.merge(&piece);
    let mut want = rows.clone();
    want[13][2] = 3;
    want[13][3] = 3;
    want[13][4] = 3;
    want[14][3] = 3;
    assert_eq!(grid.to_rows(), want);
}

#[test]
fn merge_drops_the_cells_outside_the_grid() {
    let mut grid = Grid::new();
    grid.merge(&Tetrimino::new(TetriminoKind::O, 9, -1));
    let mut want = empty_rows();
    want[0][9] = 2;
    assert_eq!(grid.to_rows(), want);
    grid.merge(&Tetrimino::new(TetriminoKind::O, -1, 15));
    want[15][0] = 2;
    assert_eq!(grid.to_rows(), want);
    grid.merge(&Tetrimino::new(TetriminoKind::O, 40, 40));
    grid.merge(&Tetrimino::new(TetriminoKind::O, i32::MAX, i32::MIN));
    grid.merge(&Tetrimino::new(TetriminoKind::O, i32::MIN, i32::MAX));
    assert_eq!(grid.to_rows(), want);
}

#[test]
fn merge_overwrites_what_the_piece_covers() {
    let mut rows = empty_rows();
    rows[5][5] = 7;
    let mut grid = Grid::from_rows(&rows).unwrap();
    grid.merge(&Tetrimino::new(TetriminoKind::I, 4, 5));
    assert_eq!(grid.to_rows()[5], vec![0, 0, 0, 0, 1, 1, 1, 1, 0, 0]);
}

#[test]
fn clearing_an_empty_grid_clears_nothing() {
    let mut grid = Grid::new();
    assert_eq!(grid.clear_completed_rows(), 0);
    assert_eq!(grid.to_rows(), empty_rows());
}

#[test]
fn clearing_leaves_a_row_with_one_gap() {
    let mut rows = empty_rows();
    rows[15] = vec![1, 1, 1, 1, 1, 1, 1, 1, 1, 0];
    let mut grid = Grid::from_rows(&rows).unwrap();
    assert_eq!(grid.clear_completed_rows(), 0);
    assert_eq!(grid.to_rows(), rows);
}

#[test]
fn clearing_removes_one_complete_row_and_moves_the_rest_down() {
    let mut rows = empty_rows();
    rows[13] = vec![0, 0, 0, 0, 0, 0, 0, 0, 3, 0];
    rows[14] = vec![0, 5, 0, 0, 0, 0, 0, 0, 3, 3];
    rows[15] = vec![1, 1, 1, 1, 2, 2, 2, 2, 3, 4];
    let mut grid = Grid::from_rows(&rows).unwrap();
    assert_eq!(grid.clear_completed_rows(), 1);
    let mut want = empty_rows();
    want[14] = vec![0, 0, 0, 0, 0, 0, 0, 0, 3, 0];
    want[15] = vec![0, 5, 0, 0, 0, 0, 0, 0, 3, 3];
    assert_eq!(grid.to_rows(), want);
}

#[test]
fn clearing_removes_separate_complete_rows_at_once() {
    let mut rows = empty_rows();
    rows[2] = vec![7, 0, 0, 0, 0, 0, 0, 0, 0, 0];
    rows[10] = vec![1; 10];
    rows[11] = vec![0, 2, 0, 2, 0, 2, 0, 2, 0, 2];
    rows[12] = vec![3; 10];
    rows[13] = vec![4, 0, 4, 0, 4, 0, 4, 0, 4, 0];
    rows[14] = vec![5; 10];
    rows[15] = vec![6; 10];
    let mut grid = Grid::from_rows(&rows).unwrap();
    assert_eq!(grid.clear_completed_rows(), 4);
    let mut want = empty_rows();
    want[6] = vec![7, 0, 0, 0, 0, 0, 0, 0, 0, 0];
    want[14] = vec![0, 2, 0, 2, 0, 2, 0, 2, 0, 2];
    want[15] = vec![4, 0, 4, 0, 4, 0, 4, 0, 4, 0];
    let after = grid.to_rows();
    assert_eq!(after.len(), 16);
    assert_eq!(after, want);
    assert_eq!(grid.clear_completed_rows(), 0);
}

#[test]
fn clearing_a_full_grid_empties_it() {
    let mut grid = Grid::from_rows(&vec![vec![7u8; 10]; 16]).unwrap();
    assert_eq!(grid.clear_completed_rows(), 16);
    assert_eq!(grid.to_rows(), empty_rows());
}
