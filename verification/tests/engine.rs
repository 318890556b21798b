//! End-to-end tests of the engine through its public surface, driven by a
//! scripted random source so every run is deterministic.

use snake_engine::geometry::Direction;
use snake_engine::model::GameStatus;
use snake_engine::rng::RandomSource;
use snake_engine::rng::ScriptedSource;
use snake_engine::world::World;

#[test]
fn construction_basic() {
    let mut src = ScriptedSource::new(vec![40]);
    let w = World::new(8, 10, &mut src);
    assert_eq!(w.width(), 8);
    assert_eq!(w.snake_head_idx(), 10);
    assert_eq!(w.get_snake_length(), 3);
    assert_eq!(w.get_points(), 0);
    assert_eq!(w.get_snake_cells(), vec![10, 11, 12]);
    assert_eq!(w.get_reward_cell(), Some(40));
    assert!(w.get_games_status().is_none());
    assert_eq!(w.get_games_status_text(), "No status");
}

#[test]
fn reward_rejects_occupied_cells() {
    // The first three draws land on the snake and are rejected.
    let mut src = ScriptedSource::new(vec![10, 11, 12, 20]);
    let w = World::new(8, 10, &mut src);
    assert_eq!(w.get_reward_cell(), Some(20));
}

#[test]
fn reward_falls_back_to_first_free_cell() {
    // Every draw of a full board's worth lands on the snake; the engine then
    // takes the first free cell instead of sampling forever.
    let mut src = ScriptedSource::new(vec![10; 64]);
    let w = World::new(8, 10, &mut src);
    assert_eq!(w.get_reward_cell(), Some(0));
}

#[test]
fn step_shifts_body_behind_new_head() {
    let mut src = ScriptedSource::new(vec![40]);
    let mut w = World::new(8, 10, &mut src);
    w.start_game();
    assert_eq!(w.get_games_status_text(), "Playing");
    w.step(&mut src);
    // Heading Down from 10 on width 8: new head 18; each segment takes its
    // predecessor's old cell; nothing consumed.
    assert_eq!(w.get_snake_cells(), vec![18, 10, 11]);
    assert_eq!(w.get_snake_length(), 3);
    assert_eq!(w.get_points(), 0);
    assert_eq!(w.get_reward_cell(), Some(40));
    assert_eq!(w.get_games_status(), Some(GameStatus::Played));
}

#[test]
fn consuming_reward_grows_and_scores() {
    // Width 8, spawn 10, reward on the cell the first Down step reaches.
    let mut src = ScriptedSource::new(vec![18, 33]);
    let mut w = World::new(8, 10, &mut src);
    assert_eq!(w.get_reward_cell(), Some(18));
    w.start_game();
    w.step(&mut src);
    assert_eq!(w.get_snake_length(), 4);
    assert_eq!(w.get_points(), 1);
    assert_eq!(w.get_snake_cells(), vec![18, 10, 11, 18]);
    let reward = w.get_reward_cell().unwrap();
    assert_eq!(reward, 33);
    assert!(!w.get_snake_cells().contains(&reward));
    assert_eq!(w.get_games_status(), Some(GameStatus::Played));
}

#[test]
fn reversal_into_neck_is_ignored() {
    // Width 4, body [4,5,6]: the Right candidate from head 4 is 5, the neck,
    // so the request is ignored and the snake keeps heading down.
    let mut src = ScriptedSource::new(vec![0]);
    let mut w = World::new(4, 4, &mut src);
    w.start_game();
    w.change_snake_dir(Direction::Right);
    w.step(&mut src);
    assert_eq!(w.snake_head_idx(), 8);
    assert_eq!(w.get_snake_cells(), vec![8, 4, 5]);
    w.step(&mut src);
    assert_eq!(w.get_snake_cells(), vec![12, 8, 4]);
}

#[test]
fn direction_change_is_applied_next_tick() {
    let mut src = ScriptedSource::new(vec![1]);
    let mut w = World::new(4, 4, &mut src);
    w.start_game();
    // Left from head 4 (row 1, column 0) wraps within the row to 7.
    w.change_snake_dir(Direction::Left);
    w.step(&mut src);
    assert_eq!(w.get_snake_cells(), vec![7, 4, 5]);
}

#[test]
fn pending_cell_set_before_start_is_consumed() {
    let mut src = ScriptedSource::new(vec![1]);
    let mut w = World::new(4, 4, &mut src);
    w.change_snake_dir(Direction::Up);
    w.start_game();
    w.step(&mut src);
    assert_eq!(w.get_snake_cells(), vec![0, 4, 5]);
}

#[test]
fn wrap_right_in_top_row() {
    // Walk the head to cell 4 (row 0, last column of width 5), then step
    // Right: the head wraps to 0, the first column of the same row.
    let mut src = ScriptedSource::new(vec![13]);
    let mut w = World::new(5, 0, &mut src);
    w.start_game();
    w.step(&mut src); // Down to 5
    w.change_snake_dir(Direction::Right);
    w.step(&mut src); // 6
    w.step(&mut src); // 7
    w.step(&mut src); // 8
    w.step(&mut src); // 9
    assert_eq!(w.get_snake_cells(), vec![9, 8, 7]);
    w.change_snake_dir(Direction::Up);
    w.step(&mut src);
    assert_eq!(w.snake_head_idx(), 4);
    w.change_snake_dir(Direction::Right);
    w.step(&mut src);
    assert_eq!(w.snake_head_idx(), 0);
    assert_eq!(w.get_snake_cells(), vec![0, 4, 9]);
}

#[test]
fn latest_direction_change_wins() {
    let mut src = ScriptedSource::new(vec![13]);
    let mut w = World::new(5, 0, &mut src);
    w.start_game();
    // Left from 0 wraps to 4 and is accepted, but the later Down request
    // replaces it before the tick consumes anything.
    w.change_snake_dir(Direction::Left);
    w.change_snake_dir(Direction::Down);
    w.step(&mut src);
    assert_eq!(w.get_snake_cells(), vec![5, 0, 1]);
}

#[test]
fn wrap_up_from_top_row() {
    let mut src = ScriptedSource::new(vec![9]);
    let mut w = World::new(4, 0, &mut src);
    w.start_game();
    w.change_snake_dir(Direction::Up);
    w.step(&mut src);
    // Up from 0 wraps to the bottom row, same column.
    assert_eq!(w.get_snake_cells(), vec![12, 0, 1]);
}

#[test]
fn wrap_down_from_bottom_row() {
    let mut src = ScriptedSource::new(vec![5]);
    let mut w = World::new(4, 12, &mut src);
    w.start_game();
    w.step(&mut src);
    // Down from 12 wraps to the top row, same column.
    assert_eq!(w.get_snake_cells(), vec![0, 12, 13]);
}

#[test]
fn self_collision_loses_and_is_terminal() {
    // Grow to length five, then steer the head back into the body.
    let mut src = ScriptedSource::new(vec![8, 12, 3]);
    let mut w = World::new(4, 4, &mut src);
    w.start_game();
    w.step(&mut src); // head 8, eats, length 4
    w.step(&mut src); // head 12, eats, length 5
    assert_eq!(w.get_points(), 2);
    assert_eq!(w.get_snake_cells(), vec![12, 8, 4, 5, 12]);
    w.step(&mut src); // head 0
    w.change_snake_dir(Direction::Right);
    w.step(&mut src); // head 1
    w.change_snake_dir(Direction::Down);
    w.step(&mut src); // head 5
    w.change_snake_dir(Direction::Left);
    w.step(&mut src); // head 4
    w.change_snake_dir(Direction::Up);
    w.step(&mut src); // head 0 again: the tail still holds 0 -> lost
    assert_eq!(w.get_games_status(), Some(GameStatus::Lost));
    assert_eq!(w.get_games_status_text(), "Lost");
    let cells = w.get_snake_cells();
    assert_eq!(cells, vec![0, 4, 5, 1, 0]);
    assert_eq!(w.get_points(), 2);
    assert_eq!(w.get_reward_cell(), Some(3));
    // Terminal: further ticks change nothing, and the game is not resurrected.
    w.step(&mut src);
    w.start_game();
    w.step(&mut src);
    assert_eq!(w.get_games_status_text(), "Lost");
    assert_eq!(w.get_snake_cells(), cells);
    assert_eq!(w.get_points(), 2);
    assert_eq!(w.get_reward_cell(), Some(3));
}

#[test]
fn filling_the_board_wins() {
    // Width 3: chain six rewards along a full tour of the board; the last
    // reward is consumed with the snake already covering every cell.
    let mut src = ScriptedSource::new(vec![3, 6, 7, 4, 5, 2, 8]);
    let mut w = World::new(3, 0, &mut src);
    w.start_game();
    w.step(&mut src); // 3, eats
    w.step(&mut src); // 6, eats
    w.change_snake_dir(Direction::Right);
    w.step(&mut src); // 7, eats
    w.change_snake_dir(Direction::Up);
    w.step(&mut src); // 4, eats
    w.change_snake_dir(Direction::Right);
    w.step(&mut src); // 5, eats
    w.change_snake_dir(Direction::Up);
    w.step(&mut src); // 2, eats: length 9 on a 9-cell board
    assert_eq!(w.get_snake_length(), 9);
    assert_eq!(w.get_points(), 6);
    w.change_snake_dir(Direction::Up);
    w.step(&mut src); // 8: reward consumed on a full board
    assert_eq!(w.get_games_status(), Some(GameStatus::Won));
    assert_eq!(w.get_games_status_text(), "Won");
    assert_eq!(w.get_reward_cell(), None);
    assert_eq!(w.get_points(), 6);
    let cells = w.get_snake_cells();
    assert_eq!(cells, vec![8, 2, 5, 4, 7, 6, 3, 0, 1]);
    // Terminal: a won game stays won.
    w.step(&mut src);
    w.start_game();
    w.step(&mut src);
    assert_eq!(w.get_games_status_text(), "Won");
    assert_eq!(w.get_snake_cells(), cells);
    assert_eq!(w.get_points(), 6);
    assert_eq!(w.get_reward_cell(), None);
}

#[test]
fn start_game_is_idempotent_while_playing() {
    let mut src = ScriptedSource::new(vec![40]);
    let mut w = World::new(8, 10, &mut src);
    w.start_game();
    w.start_game();
    assert_eq!(w.get_games_status(), Some(GameStatus::Played));
    assert_eq!(w.get_snake_cells(), vec![10, 11, 12]);
    assert_eq!(w.get_points(), 0);
}

#[test]
fn step_before_start_changes_nothing() {
    let mut src = ScriptedSource::new(vec![40]);
    let mut w = World::new(8, 10, &mut src);
    w.step(&mut src);
    assert_eq!(w.get_snake_cells(), vec![10, 11, 12]);
    assert_eq!(w.get_points(), 0);
    assert!(w.get_games_status().is_none());
    assert_eq!(w.get_games_status_text(), "No status");
}

#[test]
fn scripted_source_reduces_draws_to_range() {
    let mut src = ScriptedSource::new(vec![5, 9]);
    assert_eq!(src.draw(8), 5);
    assert_eq!(src.draw(4), 1);
    // An exhausted script keeps drawing zero.
    assert_eq!(src.draw(7), 0);
}
