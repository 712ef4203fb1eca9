use libre_hexagon::constants::{
    DEFAULT_PLAYER_SPEED, DEFAULT_POSITION, MAX_SLOT_WIDTH, RING_UNITS, SLOT_COUNT,
};
use libre_hexagon::model::{GameState, Obstacle, Slot};

#[test]
fn new_game_has_six_unit_slots() {
    let g = GameState::new();
    assert_eq!(g.get_slots().len(), SLOT_COUNT);
    for s in g.get_slots() {
        assert_eq!(s.get_width(), 1);
        assert!(s.get_obstacles().is_empty());
    }
    assert_eq!(g.get_position(), DEFAULT_POSITION);
    assert_eq!(g.get_player_speed(), DEFAULT_PLAYER_SPEED);
    assert!(g.is_running());
    assert_eq!(g.get_slot_width_sum(), 6);
    assert_eq!(g.get_current_slot_idx(), 0);
}

#[test]
fn unit_slot_lookup_is_floor_of_six_x() {
    let g = GameState::new();
    let mut x: u64 = 0;
    while x < RING_UNITS {
        assert_eq!(g.get_slot_idx_at_position(x) as u64, x * 6 / RING_UNITS);
        x += 997;
    }
    assert_eq!(g.get_slot_idx_at_position(0), 0);
    assert_eq!(g.get_slot_idx_at_position(199_999), 0);
    assert_eq!(g.get_slot_idx_at_position(200_000), 1);
    assert_eq!(g.get_slot_idx_at_position(RING_UNITS - 1), 5);
}

#[test]
fn weighted_slot_lookup() {
    let widths: [u64; 6] = [1, 2, 3, 1, 4, 1];
    let slots: Vec<Slot> = widths.iter().map(|w| Slot::with_width(*w)).collect();
    let g = GameState::with_slots(slots);
    assert_eq!(g.get_slot_width_sum(), 12);
    assert_eq!(g.get_slot_width_prefix(3), 6);
    // boundaries at 0, 1/12, 3/12, 6/12, 7/12, 11/12
    assert_eq!(g.get_slot_idx_at_position(0), 0);
    assert_eq!(g.get_slot_idx_at_position(99_999), 0);
    assert_eq!(g.get_slot_idx_at_position(100_000), 1);
    assert_eq!(g.get_slot_idx_at_position(299_999), 1);
    assert_eq!(g.get_slot_idx_at_position(300_000), 2);
    assert_eq!(g.get_slot_idx_at_position(600_000), 3);
    assert_eq!(g.get_slot_idx_at_position(700_000), 4);
    assert_eq!(g.get_slot_idx_at_position(1_100_000), 5);
    assert_eq!(g.get_slot_idx_at_position(RING_UNITS - 1), 5);
}

#[test]
fn slot_edges_stay_inside_slot() {
    let g = GameState::new();
    for s in 0..SLOT_COUNT {
        let first = g.get_slot_first_position(s);
        let last = g.get_slot_last_position(s);
        assert_eq!(first, s as u64 * 200_000);
        assert_eq!(last, s as u64 * 200_000 + 199_999);
        assert_eq!(g.get_slot_idx_at_position(first), s);
        assert_eq!(g.get_slot_idx_at_position(last), s);
    }
    let widest: Vec<Slot> = (0..6).map(|i| Slot::with_width(if i == 0 { MAX_SLOT_WIDTH } else { 1 })).collect();
    let g = GameState::with_slots(widest);
    for s in 0..SLOT_COUNT {
        assert_eq!(g.get_slot_idx_at_position(g.get_slot_first_position(s)), s);
        assert_eq!(g.get_slot_idx_at_position(g.get_slot_last_position(s)), s);
    }
}

#[test]
fn obstacles_are_added_in_order() {
    let mut g = GameState::new();
    g.add_obstacle(2, Obstacle::new(200));
    g.add_obstacle(2, Obstacle::at_distance(300, 50));
    let obs = g.get_slots()[2].get_obstacles();
    assert_eq!(obs.len(), 2);
    assert_eq!(obs[0].get_distance(), 0);
    assert_eq!(obs[0].get_height(), 200);
    assert_eq!(obs[1].get_distance(), 300);
    assert_eq!(obs[1].get_height(), 50);
    assert!(g.get_slots()[1].get_obstacles().is_empty());
}

#[test]
fn obstacle_interval_is_left_closed_right_open() {
    let o = Obstacle::at_distance(300, 200);
    assert!(!o.covers(299));
    assert!(o.covers(300));
    assert!(o.covers(430));
    assert!(o.covers(499));
    assert!(!o.covers(500));
    let mut s = Slot::new();
    assert!(!s.blocks(430));
    s.add_obstacle(Obstacle::at_distance(0, 100));
    assert!(!s.blocks(430));
    s.add_obstacle(o);
    assert!(s.blocks(430));
}

#[test]
fn set_position_and_running() {
    let mut g = GameState::new();
    g.set_position(RING_UNITS - 1);
    assert_eq!(g.get_position(), RING_UNITS - 1);
    assert_eq!(g.get_current_slot_idx(), 5);
    g.set_running(false);
    assert!(!g.is_running());
}
