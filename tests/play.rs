use tetrus::events::{Event, EventLog};
use tetrus::game::Game;
use tetrus::grid::EMPTY_CELL;
use tetrus::moves::{Move, SimpleMove};
use tetrus::score::Score;
use tetrus::shapes::ShapePosition;

fn count_occupied(game: &Game) -> usize {
    game.grid.grid.iter().map(|row| row.iter().filter(|c| **c != EMPTY_CELL).count()).sum()
}

#[test]
fn score_for_each_number_of_rows() {
    let expected = [(1, 40), (2, 100), (3, 300), (4, 1200)];
    for (n, points) in expected {
        let mut score = Score::new();
        assert!(!score.update(n));
        assert_eq!(score.points, points);
        assert_eq!(score.total_lines_cleared, n);
        assert_eq!(score.level, 0);
    }
    let mut score = Score::new();
    assert!(!score.update(0));
    assert_eq!(score, Score::new());
}

#[test]
fn score_levels_up_every_ten_rows() {
    let mut score = Score { points: 0, level: 0, total_lines_cleared: 9 };
    assert!(score.update(1));
    assert_eq!(score.level, 1);
    assert_eq!(score.points, 40);
    assert!(!score.update(2));
    assert_eq!(score.points, 40 + 100 * 2);
    assert_eq!(score.total_lines_cleared, 12);
}

#[test]
fn score_saturates() {
    let mut score = Score { points: i32::MAX - 10, level: 3, total_lines_cleared: 30 };
    score.update(4);
    assert_eq!(score.points, i32::MAX);
}

#[test]
fn event_log_timing() {
    let mut log = EventLog::new();
    assert!(!log.did_happen(Event::UserMove));
    assert!(log.elapsed_since(Event::UserMove, 100, 0));
    log.register_event(Event::UserMove, 1000);
    assert!(log.did_happen(Event::UserMove));
    assert!(!log.did_happen(Event::GameOver));
    assert!(!log.elapsed_since(Event::UserMove, 100, 1050));
    assert!(log.elapsed_since(Event::UserMove, 100, 1100));
    assert!(log.elapsed_since(Event::UserMove, 0, 900));
    assert!(!log.elapsed_since(Event::UserMove, 1, 900));
    assert!(log.elapsed_since(Event::GravityDrop, 5000, 1000));
}

#[test]
fn gravity_moves_the_piece_down() {
    let mut game = Game::start(false, ShapePosition::spawn(0, 2));
    assert!(!game.perform_block_drop());
    assert_eq!(game.current_shape.pos, (1, 5));
    assert_eq!(game.grid.grid[1][5], 2);
    assert_eq!(game.grid.grid[2][6], 2);
    assert_eq!(count_occupied(&game), 4);
    assert!(!game.perform_block_drop());
    assert_eq!(game.grid.grid[1][5], EMPTY_CELL);
    assert_eq!(game.grid.grid[3][5], 2);
    assert_eq!(count_occupied(&game), 4);
}

#[test]
fn simple_moves_respect_the_board() {
    let mut game = Game::start(false, ShapePosition::spawn(0, 2));
    game.apply_move(&Move::Simple(SimpleMove::Right));
    assert_eq!(game.current_shape.pos, (0, 6));
    game.apply_move(&Move::Simple(SimpleMove::Right));
    game.apply_move(&Move::Simple(SimpleMove::Right));
    assert_eq!(game.current_shape.pos, (0, 8));
    // the wall stops it
    game.apply_move(&Move::Simple(SimpleMove::Right));
    assert_eq!(game.current_shape.pos, (0, 8));
    assert_eq!(count_occupied(&game), 4);
}

#[test]
fn hard_drop_settles_and_spawns() {
    let mut game = Game::start(false, ShapePosition::spawn(0, 2));
    game.apply_move(&Move::HardDrop);
    assert_eq!(game.grid.grid[18][5], 2);
    assert_eq!(game.grid.grid[19][5], 2);
    assert_eq!(game.grid.grid[18][6], 2);
    assert_eq!(game.grid.grid[19][6], 2);
    assert_eq!(game.current_shape.pos, (0, 5));
    assert_eq!(count_occupied(&game), 8);
    assert!(!game.is_over);
    assert_eq!(game.score, Score::new());
}

#[test]
fn settling_clears_rows_and_scores() {
    let mut game = Game::start(false, ShapePosition::spawn(0, 2));
    for j in 0..10 {
        if j != 5 && j != 6 {
            game.grid.grid[18][j] = 1;
            game.grid.grid[19][j] = 1;
        }
    }
    game.apply_move(&Move::HardDrop);
    assert_eq!(game.score.total_lines_cleared, 2);
    assert_eq!(game.score.points, 100);
    // only the new piece is left
    assert_eq!(count_occupied(&game), 4);
}

#[test]
fn game_over_when_new_piece_does_not_fit() {
    let mut game = Game::start(false, ShapePosition::spawn(0, 2));
    for i in 2..20 {
        for j in 0..10 {
            if j != i % 10 {
                game.grid.grid[i][j] = 1;
            }
        }
    }
    // the top row, short of being full, blocks the spawn point
    for j in 1..10 {
        if j != 5 && j != 6 {
            game.grid.grid[0][j] = 1;
        }
    }
    // the square cannot fall into row 2, so it settles and the next piece collides
    assert!(game.perform_block_drop());
    assert!(game.is_over);
}

#[test]
fn bot_plays_its_plan() {
    let mut game = Game::start(true, ShapePosition::spawn(1, 3));
    let mut steps = 0;
    while let Some(m) = game.bot.as_mut().unwrap().pop_next_move() {
        game.apply_move(&m);
        steps += 1;
        if m == Move::HardDrop {
            break;
        }
    }
    assert!(steps >= 2);
    // the straight piece lies flat on the bottom row
    let bottom = game.grid.grid[19].iter().filter(|c| **c == 3).count();
    assert_eq!(bottom, 4);
}

#[test]
fn first_piece_is_on_the_board() {
    let game = Game::start(false, ShapePosition::spawn(2, 4));
    assert_eq!(game.grid.grid[0][5], 4);
    assert_eq!(game.grid.grid[0][6], 4);
    assert_eq!(game.grid.grid[0][7], 4);
    assert_eq!(game.grid.grid[1][6], 4);
    assert_eq!(count_occupied(&game), 4);
}

#[test]
fn score_with_negative_fields_saturates_low() {
    let mut score = Score { points: i32::MIN + 5, level: -3, total_lines_cleared: -20 };
    score.update(1);
    assert_eq!(score.points, i32::MIN);
    assert_eq!(score.total_lines_cleared, -19);
    assert_eq!(score.level, -1);
}
