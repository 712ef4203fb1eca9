use libre_hexagon::constants::{CURSOR_H, CURSOR_Y, RING_UNITS, TARGET_TICK_MICROS};
use libre_hexagon::controls::{Controls, CURSOR_TIP, LEFT_KEY, RIGHT_KEY};
use libre_hexagon::model::{GameState, Obstacle};

#[test]
fn keys_are_tracked() {
    let mut c = Controls::new();
    assert!(!c.is_held(LEFT_KEY));
    c.key_pressed(LEFT_KEY);
    assert!(c.is_held(LEFT_KEY));
    c.key_released(LEFT_KEY);
    assert!(!c.is_held(LEFT_KEY));
    c.key_released(RIGHT_KEY);
    assert!(!c.is_held(RIGHT_KEY));
}

#[test]
fn one_reference_tick_right_moves_by_speed() {
    let mut g = GameState::new();
    let mut c = Controls::new();
    c.key_pressed(RIGHT_KEY);
    c.tick(&mut g, 16_700);
    // 1/12 + 0.03 of a turn
    assert_eq!(g.get_position(), 100_000 + 36_000);
    assert_eq!(g.get_current_slot_idx(), 0);
    assert!(c.is_held(RIGHT_KEY));
}

#[test]
fn movement_scales_with_delta() {
    let mut g = GameState::new();
    let mut c = Controls::new();
    c.key_pressed(LEFT_KEY);
    c.tick(&mut g, TARGET_TICK_MICROS / 2);
    assert_eq!(g.get_position(), 100_000 - 18_000);
    c.tick(&mut g, 0);
    assert_eq!(g.get_position(), 82_000);
}

#[test]
fn both_keys_do_not_move() {
    let mut g = GameState::new();
    let mut c = Controls::new();
    c.key_pressed(LEFT_KEY);
    c.key_pressed(RIGHT_KEY);
    c.tick(&mut g, 16_700);
    assert_eq!(g.get_position(), 100_000);
}

#[test]
fn no_keys_do_not_move() {
    let mut g = GameState::new();
    let mut c = Controls::new();
    c.key_pressed(7);
    c.tick(&mut g, 16_700);
    assert_eq!(g.get_position(), 100_000);
}

#[test]
fn stopped_game_does_not_move() {
    let mut g = GameState::new();
    g.set_running(false);
    let mut c = Controls::new();
    c.key_pressed(RIGHT_KEY);
    c.tick(&mut g, 16_700);
    assert_eq!(g.get_position(), 100_000);
}

#[test]
fn wraps_around_both_ends() {
    let mut g = GameState::new();
    let mut c = Controls::new();
    g.set_position(10_000);
    c.key_pressed(LEFT_KEY);
    c.tick(&mut g, 16_700);
    assert_eq!(g.get_position(), RING_UNITS - 26_000);
    assert_eq!(g.get_current_slot_idx(), 5);
    c.key_released(LEFT_KEY);
    c.key_pressed(RIGHT_KEY);
    c.tick(&mut g, 16_700);
    assert_eq!(g.get_position(), 10_000);
    g.set_position(RING_UNITS - 1);
    c.tick(&mut g, 16_700);
    assert_eq!(g.get_position(), 35_999);
}

#[test]
fn whole_turns_return_to_start() {
    // 100 moves of 36_000 units make exactly three turns
    let mut g = GameState::new();
    let mut c = Controls::new();
    c.key_pressed(RIGHT_KEY);
    for _ in 0..100 {
        c.tick(&mut g, TARGET_TICK_MICROS);
        assert!(g.get_position() < RING_UNITS);
    }
    assert_eq!(g.get_position(), 100_000);
    c.key_released(RIGHT_KEY);
    c.key_pressed(LEFT_KEY);
    for _ in 0..100 {
        c.tick(&mut g, TARGET_TICK_MICROS);
        assert!(g.get_position() < RING_UNITS);
    }
    assert_eq!(g.get_position(), 100_000);
}

#[test]
fn long_tick_wraps_exactly() {
    let mut g = GameState::new();
    let mut c = Controls::new();
    c.key_pressed(RIGHT_KEY);
    // 40 reference ticks at once: 1.44 turns
    c.tick(&mut g, 40 * TARGET_TICK_MICROS);
    assert_eq!(g.get_position(), (100_000 + 40 * 36_000) % RING_UNITS);
}

#[test]
fn collision_blocks_entry_moving_right() {
    let mut g = GameState::new();
    // obstacle at 0.03 with height 0.02 covers the cursor tip at 0.043
    assert_eq!(CURSOR_TIP, CURSOR_Y + CURSOR_H);
    assert_eq!(CURSOR_TIP, 430);
    g.add_obstacle(1, Obstacle::at_distance(300, 200));
    g.set_position(190_000);
    let mut c = Controls::new();
    c.key_pressed(RIGHT_KEY);
    c.tick(&mut g, 16_700);
    assert_eq!(g.get_position(), 199_999);
    assert_eq!(g.get_current_slot_idx(), 0);
    // held against the wall: stays there
    c.tick(&mut g, 16_700);
    assert_eq!(g.get_position(), 199_999);
}

#[test]
fn collision_blocks_entry_moving_left() {
    let mut g = GameState::new();
    g.add_obstacle(1, Obstacle::at_distance(400, 100));
    g.set_position(410_000);
    let mut c = Controls::new();
    c.key_pressed(LEFT_KEY);
    c.tick(&mut g, 16_700);
    assert_eq!(g.get_position(), 400_000);
    assert_eq!(g.get_current_slot_idx(), 2);
}

#[test]
fn obstacle_beside_the_cursor_tip_does_not_block() {
    let mut g = GameState::new();
    g.add_obstacle(1, Obstacle::at_distance(430 + 1, 100));
    g.add_obstacle(1, Obstacle::at_distance(330, 100));
    g.set_position(190_000);
    let mut c = Controls::new();
    c.key_pressed(RIGHT_KEY);
    c.tick(&mut g, 16_700);
    assert_eq!(g.get_position(), 226_000);
    assert_eq!(g.get_current_slot_idx(), 1);
}
