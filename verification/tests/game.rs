use tetris::game::{
    gravity_interval_ms, level_for_lines, score_for_lines, Direction, Event, FrameOutcome, Input,
    Phase, Tetris,
};
use tetris::shape::TetriminoKind;

const ROLL_I: u64 = 0;
const ROLL_O: u64 = 1;

fn empty_rows() -> Vec<Vec<u8>> {
    vec![vec![0u8; 10]; 16]
}

/// Spawns an I piece, turns it upright, moves it to `column` and drops it.
fn drop_upright_i(game: &mut Tetris, column: i32, now: u64) {
    assert!(game.spawn_next(ROLL_I));
    assert!(game.attempt_rotate());
    // Upright, the I fills the column right of its anchor.
    while game.current_piece().unwrap().x() + 1 > column {
        assert!(game.attempt_move(Direction::Left));
    }
    while game.current_piece().unwrap().x() + 1 < column {
        assert!(game.attempt_move(Direction::Right));
    }
    assert!(game.hard_drop(now));
}

/// Fills four rows and clears them with ten upright I pieces.
fn clear_four_rows(game: &mut Tetris, now: u64) {
    for column in 0..10 {
        drop_upright_i(game, column, now);
    }
}

#[test]
fn a_new_game_waits_for_its_first_piece() {
    let game = Tetris::new();
    assert_eq!(game.phase(), Phase::Spawning);
    assert_eq!((game.score(), game.nb_lines(), game.current_level()), (0, 0, 1));
    assert_eq!(game.last_gravity_tick(), 0);
    assert!(!game.is_over());
    assert!(game.current_piece().is_none());
    assert_eq!(game.game_map().to_rows(), empty_rows());
}

#[test]
fn a_spawned_piece_stands_at_the_spawn_anchor() {
    let mut game = Tetris::new();
    let next = game.create_new_tetrimino(2);
    assert_eq!(next.kind(), TetriminoKind::T);
    assert_eq!((next.x(), next.y(), next.current_state()), (4, 0, 0));
    assert!(game.spawn_next(2));
    assert_eq!(game.phase(), Phase::Falling);
    let piece = game.current_piece().unwrap();
    assert_eq!(piece.kind(), TetriminoKind::T);
    assert_eq!((piece.x(), piece.y(), piece.current_state()), (4, 0, 0));
    // While a piece is falling a spawn does nothing.
    assert!(!game.spawn_next(ROLL_I));
    assert_eq!(game.current_piece().unwrap().kind(), TetriminoKind::T);
}

#[test]
fn moves_stop_at_the_walls() {
    let mut game = Tetris::new();
    assert!(!game.attempt_move(Direction::Left));
    assert!(!game.attempt_rotate());
    assert!(game.spawn_next(ROLL_I));
    for _ in 0..4 {
        assert!(game.attempt_move(Direction::Left));
    }
    assert!(!game.attempt_move(Direction::Left));
    assert_eq!(game.current_piece().unwrap().x(), 0);
    for _ in 0..6 {
        assert!(game.attempt_move(Direction::Right));
    }
    assert!(!game.attempt_move(Direction::Right));
    assert_eq!(game.current_piece().unwrap().x(), 6);
    assert!(game.attempt_move(Direction::Down));
    assert_eq!(game.current_piece().unwrap().y(), 1);
    assert_eq!(game.phase(), Phase::Falling);
}

#[test]
fn gravity_waits_for_the_interval() {
    let mut game = Tetris::new();
    assert!(game.spawn_next(ROLL_O));
    assert!(!game.is_time_over(999));
    assert!(!game.tick(999));
    assert_eq!(game.current_piece().unwrap().y(), 0);
    assert_eq!(game.last_gravity_tick(), 0);
    assert!(game.is_time_over(1000));
    assert!(!game.tick(1000));
    assert_eq!(game.current_piece().unwrap().y(), 1);
    assert_eq!(game.last_gravity_tick(), 1000);
    assert!(!game.tick(1999));
    assert_eq!(game.current_piece().unwrap().y(), 1);
    // A clock that runs backwards never makes a step due.
    assert!(!game.is_time_over(0));
    assert!(!game.tick(0));
    assert!(!game.tick(2000));
    assert_eq!(game.current_piece().unwrap().y(), 2);
    assert_eq!(game.last_gravity_tick(), 2000);
}

#[test]
fn gravity_lands_the_piece_on_the_floor() {
    let mut game = Tetris::new();
    assert!(game.spawn_next(ROLL_O));
    let mut now = 0;
    for row in 1..=14 {
        now += 1000;
        assert!(!game.tick(now));
        assert_eq!(game.current_piece().unwrap().y(), row);
    }
    now += 1000;
    assert!(game.tick(now));
    assert_eq!(game.phase(), Phase::Spawning);
    assert!(game.current_piece().is_none());
    let mut want = empty_rows();
    want[14][4] = 2;
    want[14][5] = 2;
    want[15][4] = 2;
    want[15][5] = 2;
    assert_eq!(game.game_map().to_rows(), want);
    assert_eq!(game.last_gravity_tick(), now);
    assert_eq!((game.score(), game.nb_lines(), game.current_level()), (0, 0, 1));
}

#[test]
fn a_tick_without_a_piece_restarts_the_clock() {
    let mut game = Tetris::new();
    assert!(!game.tick(5000));
    assert_eq!(game.last_gravity_tick(), 5000);
    assert_eq!(game.phase(), Phase::Spawning);
}

#[test]
fn a_soft_drop_moves_one_row_and_keeps_the_clock() {
    let mut game = Tetris::new();
    assert!(!game.soft_drop(10));
    assert!(game.spawn_next(ROLL_O));
    assert!(!game.soft_drop(700));
    assert_eq!(game.current_piece().unwrap().y(), 1);
    assert_eq!(game.last_gravity_tick(), 0);
    for _ in 0..13 {
        assert!(!game.soft_drop(700));
    }
    assert_eq!(game.current_piece().unwrap().y(), 14);
    assert!(game.soft_drop(800));
    assert!(game.current_piece().is_none());
    assert_eq!(game.last_gravity_tick(), 800);
    assert_eq!(game.game_map().cell(4, 15), Some(2));
}

#[test]
fn a_hard_drop_lands_at_once() {
    let mut game = Tetris::new();
    assert!(!game.hard_drop(1));
    assert!(game.spawn_next(ROLL_O));
    assert!(game.hard_drop(123));
    assert_eq!(game.phase(), Phase::Spawning);
    assert_eq!(game.last_gravity_tick(), 123);
    assert!(game.spawn_next(ROLL_O));
    assert!(game.hard_drop(456));
    let rows = game.game_map().to_rows();
    for row in 12..16 {
        assert_eq!(rows[row], vec![0, 0, 0, 0, 2, 2, 0, 0, 0, 0]);
    }
    assert_eq!(rows[11], vec![0u8; 10]);
}

#[test]
fn completing_the_bottom_row_scores_the_single_row_bonus() {
    let mut game = Tetris::new();
    // Two flat I pieces fill columns 0 to 7 of the bottom row.
    assert!(game.spawn_next(ROLL_I));
    for _ in 0..4 {
        assert!(game.attempt_move(Direction::Left));
    }
    assert!(game.hard_drop(0));
    assert!(game.spawn_next(ROLL_I));
    assert!(game.hard_drop(0));
    // An upright I fills column 8.
    drop_upright_i(&mut game, 8, 0);
    let mut before = empty_rows();
    before[15] = vec![1, 1, 1, 1, 1, 1, 1, 1, 1, 0];
    before[14][8] = 1;
    before[13][8] = 1;
    before[12][8] = 1;
    assert_eq!(game.game_map().to_rows(), before);
    assert_eq!((game.score(), game.nb_lines(), game.current_level()), (0, 0, 1));
    // An upright I in column 9 fills the last cell of the bottom row.
    drop_upright_i(&mut game, 9, 900);
    assert_eq!(game.nb_lines(), 1);
    assert_eq!(game.score(), 40);
    assert_eq!(game.current_level(), 1);
    let mut after = empty_rows();
    for row in 13..16 {
        after[row][8] = 1;
        after[row][9] = 1;
    }
    assert_eq!(game.game_map().to_rows(), after);
    assert_eq!(game.phase(), Phase::Spawning);
    assert_eq!(game.last_gravity_tick(), 900);
}

#[test]
fn make_permanent_reports_the_cleared_rows() {
    let mut game = Tetris::new();
    assert_eq!(game.make_permanent(5), 0);
    assert_eq!(game.last_gravity_tick(), 0);
    for column in 0..9 {
        drop_upright_i(&mut game, column, 0);
    }
    assert!(game.spawn_next(ROLL_I));
    assert!(game.attempt_rotate());
    for _ in 0..4 {
        assert!(game.attempt_move(Direction::Right));
    }
    for _ in 0..12 {
        assert!(game.attempt_move(Direction::Down));
    }
    assert!(!game.attempt_move(Direction::Down));
    assert_eq!(game.make_permanent(31), 4);
    assert_eq!(game.game_map().to_rows(), empty_rows());
    assert_eq!((game.score(), game.nb_lines(), game.current_level()), (1200, 4, 1));
    assert_eq!(game.last_gravity_tick(), 31);
}

#[test]
fn the_level_rises_with_every_ten_lines() {
    let mut game = Tetris::new();
    clear_four_rows(&mut game, 0);
    assert_eq!((game.score(), game.nb_lines(), game.current_level()), (1200, 4, 1));
    clear_four_rows(&mut game, 0);
    assert_eq!((game.score(), game.nb_lines(), game.current_level()), (2400, 8, 1));
    clear_four_rows(&mut game, 0);
    assert_eq!((game.score(), game.nb_lines(), game.current_level()), (3600, 12, 2));
    clear_four_rows(&mut game, 0);
    assert_eq!((game.score(), game.nb_lines(), game.current_level()), (6000, 16, 2));
    clear_four_rows(&mut game, 0);
    assert_eq!((game.score(), game.nb_lines(), game.current_level()), (8400, 20, 3));
    // At level 3 a step is due after 850 ms.
    assert!(game.spawn_next(ROLL_O));
    assert!(!game.is_time_over(849));
    assert!(game.is_time_over(850));
}

#[test]
fn a_failed_spawn_ends_the_game_and_changes_nothing_else() {
    let mut game = Tetris::new();
    for _ in 0..8 {
        assert!(game.spawn_next(ROLL_O));
        assert!(game.hard_drop(10));
    }
    let rows = game.game_map().to_rows();
    for row in 0..16 {
        assert_eq!(rows[row], vec![0, 0, 0, 0, 2, 2, 0, 0, 0, 0]);
    }
    let counters = (game.score(), game.nb_lines(), game.current_level());
    assert_eq!(counters, (0, 0, 1));
    assert!(!game.spawn_next(ROLL_O));
    assert_eq!(game.phase(), Phase::GameOver);
    assert!(game.is_over());
    assert!(game.current_piece().is_none());
    assert_eq!(game.game_map().to_rows(), rows);
    assert_eq!((game.score(), game.nb_lines(), game.current_level()), counters);
}

#[test]
fn a_game_that_is_over_takes_no_more_events() {
    let mut game = Tetris::new();
    for _ in 0..8 {
        assert!(game.spawn_next(ROLL_O));
        assert!(game.hard_drop(10));
    }
    assert!(!game.spawn_next(ROLL_O));
    let rows = game.game_map().to_rows();
    let events = [
        Event::Spawn { roll: 0 },
        Event::Tick { now: 1_000_000 },
        Event::Key { input: Input::MoveLeft, now: 20 },
        Event::Key { input: Input::MoveRight, now: 20 },
        Event::Key { input: Input::Rotate, now: 20 },
        Event::Key { input: Input::SoftDrop, now: 20 },
        Event::Key { input: Input::HardDrop, now: 20 },
        Event::Key { input: Input::Quit, now: 20 },
    ];
    for event in events {
        game.step(event);
        assert_eq!(game.phase(), Phase::GameOver);
        assert_eq!(game.game_map().to_rows(), rows);
        assert_eq!((game.score(), game.nb_lines(), game.current_level()), (0, 0, 1));
        assert_eq!(game.last_gravity_tick(), 10);
    }
    assert!(!game.tick(2_000_000));
    assert!(!game.attempt_move(Direction::Down));
    assert_eq!(game.last_gravity_tick(), 10);
}

#[test]
fn inputs_act_on_the_falling_piece() {
    let mut game = Tetris::new();
    assert!(!game.apply_input(Input::MoveLeft, 0));
    assert!(game.spawn_next(2));
    assert!(!game.apply_input(Input::MoveLeft, 0));
    assert!(!game.apply_input(Input::MoveLeft, 0));
    assert!(!game.apply_input(Input::MoveRight, 0));
    assert!(!game.apply_input(Input::Rotate, 0));
    assert!(!game.apply_input(Input::SoftDrop, 0));
    assert!(!game.apply_input(Input::Quit, 0));
    let piece = game.current_piece().unwrap();
    assert_eq!((piece.x(), piece.y(), piece.current_state()), (3, 1, 1));
    assert!(game.apply_input(Input::HardDrop, 9));
    assert_eq!(game.phase(), Phase::Spawning);
    // The T in its second state fills (x + 1, y), (x, y + 1), (x + 1, y + 1)
    // and (x + 1, y + 2).
    let mut want = empty_rows();
    want[13][4] = 3;
    want[14][3] = 3;
    want[14][4] = 3;
    want[15][4] = 3;
    assert_eq!(game.game_map().to_rows(), want);
}

#[test]
fn a_frame_of_inputs_stops_at_quit() {
    let mut game = Tetris::new();
    assert!(game.spawn_next(ROLL_O));
    let inputs = vec![Input::MoveLeft, Input::SoftDrop, Input::Quit, Input::MoveLeft];
    let outcome = game.handle_events(&inputs, 5);
    assert_eq!(outcome, FrameOutcome { quit: true, landed: false });
    let piece = game.current_piece().unwrap();
    assert_eq!((piece.x(), piece.y()), (3, 1));
}

#[test]
fn a_quit_after_a_hard_drop_in_the_same_frame_is_reported() {
    let mut game = Tetris::new();
    assert!(game.spawn_next(ROLL_O));
    let inputs = vec![Input::MoveRight, Input::HardDrop, Input::Quit];
    let outcome = game.handle_events(&inputs, 5);
    assert_eq!(outcome, FrameOutcome { quit: true, landed: true });
    assert_eq!(game.phase(), Phase::Spawning);
    assert_eq!(game.game_map().cell(5, 15), Some(2));
    assert_eq!(game.game_map().cell(6, 15), Some(2));
    assert_eq!(game.game_map().cell(4, 15), Some(0));
    assert_eq!(game.last_gravity_tick(), 5);
}

#[test]
fn a_quit_after_a_soft_drop_that_lands_is_reported() {
    let mut game = Tetris::new();
    assert!(game.spawn_next(ROLL_O));
    for _ in 0..14 {
        assert!(!game.soft_drop(1));
    }
    let outcome = game.handle_events(&vec![Input::SoftDrop, Input::Quit], 8);
    assert_eq!(outcome, FrameOutcome { quit: true, landed: true });
    assert!(game.current_piece().is_none());
    assert_eq!(game.last_gravity_tick(), 8);
}

#[test]
fn inputs_after_a_landing_change_nothing() {
    let mut game = Tetris::new();
    assert!(game.spawn_next(ROLL_O));
    let inputs = vec![
        Input::HardDrop,
        Input::MoveLeft,
        Input::Rotate,
        Input::SoftDrop,
        Input::HardDrop,
        Input::MoveRight,
    ];
    let outcome = game.handle_events(&inputs, 5);
    assert_eq!(outcome, FrameOutcome { quit: false, landed: true });
    assert_eq!(game.phase(), Phase::Spawning);
    let mut want = empty_rows();
    want[14][4] = 2;
    want[14][5] = 2;
    want[15][4] = 2;
    want[15][5] = 2;
    assert_eq!(game.game_map().to_rows(), want);
    assert_eq!(game.last_gravity_tick(), 5);
    assert_eq!((game.score(), game.nb_lines(), game.current_level()), (0, 0, 1));
}

#[test]
fn inputs_after_a_quit_are_not_applied() {
    let mut game = Tetris::new();
    assert!(game.spawn_next(ROLL_O));
    let inputs = vec![Input::Quit, Input::HardDrop, Input::Quit];
    let outcome = game.handle_events(&inputs, 5);
    assert_eq!(outcome, FrameOutcome { quit: true, landed: false });
    let piece = game.current_piece().unwrap();
    assert_eq!((piece.x(), piece.y()), (4, 0));
    assert_eq!(game.last_gravity_tick(), 0);
}

#[test]
fn a_quit_without_a_falling_piece_is_reported() {
    let mut game = Tetris::new();
    let outcome = game.handle_events(&vec![Input::MoveLeft, Input::Quit], 5);
    assert_eq!(outcome, FrameOutcome { quit: true, landed: false });
    assert_eq!(game.phase(), Phase::Spawning);
    assert_eq!(game.game_map().to_rows(), empty_rows());
}

#[test]
fn a_frame_without_inputs_changes_nothing() {
    let mut game = Tetris::new();
    assert!(game.spawn_next(ROLL_O));
    let outcome = game.handle_events(&Vec::new(), 5);
    assert_eq!(outcome, FrameOutcome { quit: false, landed: false });
    let outcome = game.handle_events(&vec![Input::Rotate, Input::MoveLeft], 5);
    assert_eq!(outcome, FrameOutcome { quit: false, landed: false });
    assert_eq!(game.current_piece().unwrap().x(), 3);
}

#[test]
fn counters_never_go_down_over_a_game() {
    let mut game = Tetris::new();
    let mut last = (game.score(), game.nb_lines(), game.current_level());
    let mut now = 0;
    let mut seed: u64 = 12345;
    for round in 0..4000u64 {
        seed = seed.wrapping_mul(6364136223846793005).wrapping_add(1442695040888963407);
        let pick = (seed >> 33) % 8;
        now += 130;
        let event = match pick {
            0 => Event::Spawn { roll: seed >> 40 },
            1 => Event::Tick { now },
            2 => Event::Key { input: Input::MoveLeft, now },
            3 => Event::Key { input: Input::MoveRight, now },
            4 => Event::Key { input: Input::Rotate, now },
            5 => Event::Key { input: Input::SoftDrop, now },
            6 => Event::Key { input: Input::HardDrop, now },
            _ => Event::Spawn { roll: round },
        };
        game.step(event);
        let counters = (game.score(), game.nb_lines(), game.current_level());
        assert!(counters.0 >= last.0 && counters.1 >= last.1 && counters.2 >= last.2);
        assert_eq!(counters.2, 1 + counters.1 / 10);
        last = counters;
    }
    assert!(game.is_over());
}

#[test]
fn step_does_what_the_single_calls_do() {
    let mut by_step = Tetris::new();
    let mut by_call = Tetris::new();
    by_step.step(Event::Spawn { roll: 5 });
    assert!(by_call.spawn_next(5));
    by_step.step(Event::Key { input: Input::Rotate, now: 3 });
    assert!(by_call.attempt_rotate());
    by_step.step(Event::Tick { now: 1000 });
    assert!(!by_call.tick(1000));
    by_step.step(Event::Key { input: Input::HardDrop, now: 1001 });
    assert!(by_call.hard_drop(1001));
    assert_eq!(by_step.game_map().to_rows(), by_call.game_map().to_rows());
    assert_eq!(by_step.last_gravity_tick(), by_call.last_gravity_tick());
    assert_eq!(by_step.phase(), by_call.phase());
    assert_eq!(by_step.game_map().cell(5, 15), Some(6));
}

#[test]
fn points_for_cleared_rows() {
    assert_eq!(score_for_lines(0, 1), 0);
    assert_eq!(score_for_lines(1, 1), 40);
    assert_eq!(score_for_lines(2, 1), 100);
    assert_eq!(score_for_lines(3, 1), 300);
    assert_eq!(score_for_lines(4, 1), 1200);
    assert_eq!(score_for_lines(1, 7), 280);
    assert_eq!(score_for_lines(4, 3), 3600);
    assert_eq!(score_for_lines(16, 2), 2400);
    assert_eq!(score_for_lines(0, u32::MAX), 0);
    assert_eq!(score_for_lines(4, u32::MAX), 1200 * 4294967295u64);
}

#[test]
fn levels_for_cleared_lines() {
    assert_eq!(level_for_lines(0), 1);
    assert_eq!(level_for_lines(9), 1);
    assert_eq!(level_for_lines(10), 2);
    assert_eq!(level_for_lines(19), 2);
    assert_eq!(level_for_lines(120), 13);
    assert_eq!(level_for_lines(u32::MAX), 429496730);
}

#[test]
fn gravity_speeds_up_to_a_floor() {
    assert_eq!(gravity_interval_ms(0), 1000);
    assert_eq!(gravity_interval_ms(1), 1000);
    assert_eq!(gravity_interval_ms(2), 925);
    assert_eq!(gravity_interval_ms(3), 850);
    assert_eq!(gravity_interval_ms(12), 175);
    assert_eq!(gravity_interval_ms(13), 100);
    assert_eq!(gravity_interval_ms(14), 100);
    assert_eq!(gravity_interval_ms(u32::MAX), 100);
    let mut last = gravity_interval_ms(1);
    for level in 2..40 {
        let ms = gravity_interval_ms(level);
        assert!(ms <= last && ms >= 100);
        last = ms;
    }
}
