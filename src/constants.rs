use vstd::prelude::*;

verus! {

/// Units of player position in one full turn of the ring: a position
/// `p` stands for the fraction `p / RING_UNITS` of the circumference.
pub const RING_UNITS: u64 = 1_200_000;

/// Radial units in one unit of distance from the track centre.
pub const RADIAL_UNITS: u64 = 10_000;

/// Number of slots on the ring.
pub const SLOT_COUNT: usize = 6;

/// Largest relative width a slot may have.
pub const MAX_SLOT_WIDTH: u64 = 1000;

/// Radial coordinate of the inner hexagon's edge (0.025).
pub const INNER_HEXAGON_Y: u64 = 250;

/// Radial coordinate of the outer hexagon's edge (0.03).
pub const OUTER_HEXAGON_Y: u64 = 300;

/// Radial coordinate of the cursor's base (0.035).
pub const CURSOR_Y: u64 = 350;

/// Radial extent of the cursor (0.008).
pub const CURSOR_H: u64 = 80;

/// Angular width of the cursor in ring units (0.05 of a turn).
pub const CURSOR_W: u64 = 60_000;

/// Reference tick length in microseconds (16.7 ms) used to make movement
/// independent of the frame rate.
pub const TARGET_TICK_MICROS: u64 = 16_700;

/// Player speed at start: 0.03 of a turn per reference tick.
pub const DEFAULT_PLAYER_SPEED: u64 = 36_000;

/// Obstacle speed at start: 0.005 radial units per reference tick.
pub const DEFAULT_OBSTACLE_SPEED: u64 = 50;

/// Player position at start: the middle of the first of six equal slots.
pub const DEFAULT_POSITION: u64 = 100_000;

/// Duration of the collision flash in microseconds.
pub const FLASH_DURATION_MICROS: u64 = 100_000;

} // verus!
