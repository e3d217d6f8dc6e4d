use tetrus::grid::{Grid, EMPTY_CELL};

fn count_occupied(grid: &Grid) -> usize {
    let mut n = 0;
    for row in grid.grid.iter() {
        for cell in row.iter() {
            if *cell != EMPTY_CELL {
                n += 1;
            }
        }
    }
    n
}

#[test]
fn new_board_is_empty() {
    let grid = Grid::new();
    assert_eq!(grid.grid.len(), 20);
    assert_eq!(grid.grid[0].len(), 10);
    assert_eq!(count_occupied(&grid), 0);
}

#[test]
fn can_place_refuses_cells_off_the_board() {
    let grid = Grid::new();
    assert!(!grid.can_set_pixels(&[(0, 0), (-1, 0)], &[]));
    assert!(!grid.can_set_pixels(&[(0, -1)], &[]));
    assert!(!grid.can_set_pixels(&[(20, 0)], &[]));
    assert!(!grid.can_set_pixels(&[(0, 10)], &[]));
    // even when the cell is in the ignore set
    assert!(!grid.can_set_pixels(&[(20, 3)], &[(20, 3)]));
    assert!(grid.can_set_pixels(&[(0, 0), (19, 9)], &[]));
}

#[test]
fn can_place_refuses_occupied_cells() {
    let mut grid = Grid::new();
    grid.set_pixels(&[(5, 5)], 3);
    assert!(!grid.can_set_pixels(&[(5, 4), (5, 5)], &[]));
    assert!(grid.can_set_pixels(&[(5, 4), (6, 5)], &[]));
}

#[test]
fn can_place_ignores_own_cells() {
    let mut grid = Grid::new();
    let own = [(3, 3), (3, 4), (4, 3), (4, 4)];
    grid.set_pixels(&own, 1);
    // a piece can always stay where it is
    assert!(grid.can_set_pixels(&own, &own));
    assert!(!grid.can_set_pixels(&own, &[]));
    // moving down one row overlaps only its own cells
    assert!(grid.can_set_pixels(&[(4, 3), (4, 4), (5, 3), (5, 4)], &own));
}

#[test]
fn set_and_unset_pixels() {
    let mut grid = Grid::new();
    grid.set_pixels(&[(0, 0), (19, 9), (7, 2)], 4);
    assert_eq!(grid.grid[0][0], 4);
    assert_eq!(grid.grid[19][9], 4);
    assert_eq!(grid.grid[7][2], 4);
    assert_eq!(count_occupied(&grid), 3);
    grid.unset_pixels(&[(0, 0), (7, 2)]);
    assert_eq!(grid.grid[0][0], EMPTY_CELL);
    assert_eq!(grid.grid[7][2], EMPTY_CELL);
    assert_eq!(grid.grid[19][9], 4);
    assert_eq!(count_occupied(&grid), 1);
}

#[test]
fn clear_without_full_rows_is_a_no_op() {
    let mut grid = Grid::new();
    for j in 0..9 {
        grid.grid[19][j] = 2;
    }
    grid.grid[10][4] = 5;
    let before = grid.grid;
    assert_eq!(grid.clear_completed_rows(), 0);
    assert_eq!(grid.grid, before);
}

#[test]
fn clear_only_bottom_row_leaves_empty_board() {
    let mut grid = Grid::new();
    for j in 0..10 {
        grid.grid[19][j] = 1;
    }
    assert_eq!(grid.clear_completed_rows(), 1);
    assert_eq!(count_occupied(&grid), 0);
}

#[test]
fn clear_shifts_rows_above_down() {
    let mut grid = Grid::new();
    for j in 0..10 {
        grid.grid[19][j] = 1;
    }
    grid.grid[18][3] = 6;
    grid.grid[17][0] = 2;
    assert_eq!(grid.clear_completed_rows(), 1);
    assert_eq!(grid.grid[19][3], 6);
    assert_eq!(grid.grid[18][0], 2);
    assert_eq!(count_occupied(&grid), 2);
}

#[test]
fn clear_non_adjacent_rows() {
    let mut grid = Grid::new();
    for j in 0..10 {
        grid.grid[19][j] = 1;
        grid.grid[17][j] = 1;
    }
    grid.grid[18][2] = 3;
    grid.grid[16][7] = 4;
    assert_eq!(grid.clear_completed_rows(), 2);
    assert_eq!(grid.grid[19][2], 3);
    assert_eq!(grid.grid[18][7], 4);
    assert_eq!(count_occupied(&grid), 2);
}

#[test]
fn clear_is_idempotent() {
    let mut grid = Grid::new();
    for i in 14..20 {
        for j in 0..10 {
            grid.grid[i][j] = (i % 7) as i32;
        }
    }
    grid.grid[15][5] = EMPTY_CELL;
    grid.grid[12][1] = 3;
    assert_eq!(grid.clear_completed_rows(), 5);
    let once = grid.grid;
    assert_eq!(grid.clear_completed_rows(), 0);
    assert_eq!(grid.grid, once);
    assert_eq!(grid.grid[19][5], EMPTY_CELL);
    assert_eq!(grid.grid[19][4], 1);
    assert_eq!(grid.grid[17][1], 3);
    assert_eq!(count_occupied(&grid), 10);
}

#[test]
fn clear_full_board() {
    let mut grid = Grid::new();
    for i in 0..20 {
        for j in 0..10 {
            grid.grid[i][j] = 0;
        }
    }
    assert_eq!(grid.clear_completed_rows(), 20);
    assert_eq!(count_occupied(&grid), 0);
}
