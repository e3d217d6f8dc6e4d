use tetrus::ai::{GridAnalysis, TetrisBot};
use tetrus::grid::{Grid, EMPTY_CELL};
use tetrus::moves::{Move, SimpleMove};
use tetrus::shapes::{ShapePosition, NUM_SHAPES};

fn drain(bot: &mut TetrisBot) -> Vec<Move> {
    let mut moves = Vec::new();
    while let Some(m) = bot.pop_next_move() {
        moves.push(m);
    }
    moves
}

#[test]
fn gap_counting_in_one_column() {
    let mut grid = Grid::new();
    // column 0, rows 15..20 from the top: empty, empty, filled, empty, filled
    grid.grid[17][0] = 1;
    grid.grid[19][0] = 1;
    assert_eq!(GridAnalysis::count_gaps(&grid), 1);
}

#[test]
fn empties_below_a_filled_cell_are_gaps() {
    let mut grid = Grid::new();
    // the same pattern at the top of the column leaves 15 more empty cells under it
    grid.grid[2][0] = 1;
    grid.grid[4][0] = 1;
    assert_eq!(GridAnalysis::count_gaps(&grid), 16);
}

#[test]
fn gaps_add_up_over_columns() {
    let mut grid = Grid::new();
    grid.grid[17][3] = 1;
    grid.grid[15][8] = 2;
    assert_eq!(GridAnalysis::count_gaps(&grid), 2 + 4);
    assert_eq!(GridAnalysis::count_gaps(&Grid::new()), 0);
}

#[test]
fn first_nonempty_row_and_full_rows() {
    let mut grid = Grid::new();
    assert_eq!(GridAnalysis::get_first_nonempty_row_index(&grid), 20);
    assert_eq!(GridAnalysis::count_filled_rows(&grid), 0);
    grid.grid[12][9] = 0;
    for j in 0..10 {
        grid.grid[18][j] = 1;
        grid.grid[19][j] = 2;
    }
    assert_eq!(GridAnalysis::get_first_nonempty_row_index(&grid), 12);
    assert_eq!(GridAnalysis::count_filled_rows(&grid), 2);
}

#[test]
fn score_formula() {
    let mut grid = Grid::new();
    assert_eq!(TetrisBot::grid_score(&grid), 20);
    grid.grid[10][0] = 1;
    for j in 0..10 {
        grid.grid[19][j] = 1;
    }
    // one full row, topmost occupied row 10, gaps in column 0 at rows 11..19 minus row 19
    assert_eq!(TetrisBot::grid_score(&grid), 10 + 10 - 8);
}

#[test]
fn extra_full_row_scores_ten_more() {
    let mut partial = Grid::new();
    for j in 0..9 {
        partial.grid[19][j] = 3;
    }
    let mut full = partial;
    full.grid[19][9] = 3;
    assert_eq!(TetrisBot::grid_score(&partial), 19);
    assert_eq!(TetrisBot::grid_score(&full), 29);
    assert!(TetrisBot::grid_score(&full) >= TetrisBot::grid_score(&partial) + 10);
}

#[test]
fn search_on_empty_board_ends_in_hard_drop() {
    let grid = Grid::new();
    for kind in 0..NUM_SHAPES {
        let shape = ShapePosition::spawn(kind, 0);
        let mut bot = TetrisBot::new();
        bot.update_policy(&grid, &shape);
        let moves = drain(&mut bot);
        assert!(!moves.is_empty());
        assert_eq!(*moves.last().unwrap(), Move::HardDrop);
        assert_eq!(moves.iter().filter(|m| **m == Move::HardDrop).count(), 1);
    }
}

#[test]
fn search_on_full_board_plans_nothing() {
    let mut grid = Grid::new();
    for i in 0..20 {
        for j in 0..10 {
            grid.grid[i][j] = 4;
        }
    }
    for kind in 0..NUM_SHAPES {
        let shape = ShapePosition::spawn(kind, 1);
        let mut bot = TetrisBot::new();
        bot.update_policy(&grid, &shape);
        assert_eq!(bot.pop_next_move(), None);
    }
}

#[test]
fn search_with_blocked_top_still_places_lower() {
    // a filled top row does not stop the candidates, which start four rows down
    let mut grid = Grid::new();
    for j in 0..10 {
        grid.grid[0][j] = 4;
    }
    grid.grid[0][4] = EMPTY_CELL;
    let shape = ShapePosition::spawn(0, 1);
    let mut bot = TetrisBot::new();
    bot.update_policy(&grid, &shape);
    let moves = drain(&mut bot);
    assert_eq!(*moves.last().unwrap(), Move::HardDrop);
}

#[test]
fn search_completes_a_row() {
    let mut grid = Grid::new();
    for j in 0..10 {
        if j < 5 || j > 8 {
            grid.grid[19][j] = 2;
        }
    }
    let shape = ShapePosition::spawn(1, 0);
    let mut bot = TetrisBot::new();
    bot.update_policy(&grid, &shape);
    let down = Move::Simple(SimpleMove::Down);
    assert_eq!(drain(&mut bot), vec![down, down, down, down, Move::HardDrop]);
}

#[test]
fn search_leaves_the_board_unchanged() {
    let mut grid = Grid::new();
    grid.grid[19][0] = 1;
    let shape = ShapePosition::spawn(2, 1);
    grid.set_pixels(&shape.get_pixels(), 1);
    let before = grid.grid;
    let mut bot = TetrisBot::new();
    bot.update_policy(&grid, &shape);
    assert_eq!(grid.grid, before);
    assert!(bot.pop_next_move().is_some());
}

#[test]
fn new_bot_has_no_moves() {
    let mut bot = TetrisBot::new();
    assert_eq!(bot.pop_next_move(), None);
}

#[test]
fn plan_text_in_execution_order() {
    let plan = vec![
        Move::HardDrop,
        Move::Simple(SimpleMove::Left),
        Move::Simple(SimpleMove::Left),
        Move::Simple(SimpleMove::Rotate),
        Move::Simple(SimpleMove::Down),
    ];
    assert_eq!(TetrisBot::moves_to_str(&plan), "<SLL>");
    assert_eq!(TetrisBot::moves_to_str(&vec![Move::Simple(SimpleMove::Right)]), "<R>");
    assert_eq!(TetrisBot::moves_to_str(&Vec::new()), "<>");
}

#[test]
fn decide_on_board_holding_only_the_piece() {
    for kind in 0..NUM_SHAPES {
        let shape = ShapePosition::spawn(kind, 2);
        let mut grid = Grid::new();
        grid.set_pixels(&shape.get_pixels(), 2);
        let moves = TetrisBot::decide_moves(&grid, &shape);
        assert!(!moves.is_empty());
        assert_eq!(moves[0], Move::HardDrop);
        let moves = TetrisBot::decide_moves(&Grid::new(), &shape);
        assert_eq!(moves[0], Move::HardDrop);
    }
}

#[test]
fn decide_with_no_legal_candidate_is_empty() {
    let mut grid = Grid::new();
    for i in 0..20 {
        for j in 0..10 {
            grid.grid[i][j] = 1;
        }
    }
    let shape = ShapePosition::spawn(3, 0);
    assert!(TetrisBot::decide_moves(&grid, &shape).is_empty());
}
